//! The price of several exchanges, mixed into one.

use vstd::prelude::*;

use crate::currency::{UsdCents, VolumePicker};
use crate::decimal::{
    adds_exactly, at_scale, checked_div, decimal_product, decimal_quotient, decimal_sum, is_close,
    is_rounded_ratio, lemma_decimal_equal, lemma_rescale, lemma_rounded_equal_ratios,
    lemma_ten_to_positive, lemma_ten_to_sum, multiplies_exactly, product_of, quotient_denominator,
    quotient_numerator, ratio_fits, size, sum_of, ten_to, units, Decimal, MAX_MANTISSA, MAX_SCALE,
    PRECISION, UNITS,
};

verus! {

/// A market at one point in time.
pub trait SidePicker {
    /// A side of the market.
    type Volume: VolumePicker;

    /// The side on which US dollars are bought.
    fn buy_usd(&self) -> Self::Volume;

    /// The side on which US dollars are sold.
    fn sell_usd(&self) -> Self::Volume;

    /// The price of one satoshi half way between the sides.
    fn mid_price_of_one_sat(&self) -> UsdCents;
}

/// A point in time: seconds since the start of 1970, and nanoseconds.
#[derive(Debug, Clone, Copy, PartialEq, Eq, Structural)]
pub struct TimeStamp {
    pub secs: i64,
    pub nanos: u32,
}

/// Why an exchange has no price.
#[derive(Debug, Clone, Copy, PartialEq, Eq, Structural)]
pub enum ExchangePriceCacheError {
    /// The last update was too long ago, at this time.
    StalePrice(TimeStamp),
    /// There was no update yet.
    NoPriceAvailable,
}

/// What an exchange answers: a price, or why it has none.
pub type PriceAnswer = Result<Decimal, ExchangePriceCacheError>;

/// An exchange and its weight in the mix.
#[derive(Debug)]
pub struct Provider {
    pub exchange: String,
    pub weight: Decimal,
}

/// The exchanges whose prices are mixed.
#[derive(Debug)]
pub struct PriceMixer {
    providers: Vec<Provider>,
}

/// Whether no exchange occurs twice.
pub open spec fn distinct_exchanges(providers: Seq<Provider>) -> bool {
    forall|i: int, j: int|
        0 <= i < j < providers.len() ==> (#[trigger] providers[i]).exchange@ != (
        #[trigger] providers[j]).exchange@
}

/// The weights of the given exchanges.
pub open spec fn weights_of(providers: Seq<Provider>) -> Seq<Decimal> {
    Seq::new(providers.len(), |i: int| providers[i].weight)
}

/// The weighted sum of the first `n` answered prices, and the sum of their weights, or `None`
/// where one of them is out of range.
pub open spec fn weighted_totals(
    answers: Seq<PriceAnswer>,
    weights: Seq<Decimal>,
    n: nat,
) -> Option<(Decimal, Decimal)>
    decreases n,
{
    if n == 0 {
        Some((Decimal::nothing(), Decimal::nothing()))
    } else {
        match (weighted_totals(answers, weights, (n - 1) as nat), answers[n - 1]) {
            (None, _) => None,
            (Some(totals), Err(_)) => Some(totals),
            (Some(totals), Ok(price)) => add_weighted(totals, price, weights[n - 1]),
        }
    }
}

/// The totals with one more price.
pub open spec fn add_weighted(
    totals: (Decimal, Decimal),
    price: Decimal,
    weight: Decimal,
) -> Option<(Decimal, Decimal)> {
    match (decimal_sum(totals.1, weight), decimal_product(price, weight)) {
        (Some(weight_total), Some(weighted)) => match decimal_sum(totals.0, weighted) {
            Some(total) => Some((total, weight_total)),
            None => None,
        },
        _ => None,
    }
}

/// Whether no exchange answered with a price.
pub open spec fn none_answered<P>(answers: Seq<Result<P, ExchangePriceCacheError>>) -> bool {
    forall|i: int| 0 <= i < answers.len() ==> (#[trigger] answers[i]) is Err
}

/// The mean of the answered prices by weight. Where no exchange answered with a price, it is the
/// reason of the last one. It is `None` where there is no exchange, where the weights of those
/// that answered add up to zero, and where a number is out of range.
pub open spec fn mixed_price(answers: Seq<PriceAnswer>, weights: Seq<Decimal>) -> Option<
    PriceAnswer,
> {
    if answers.len() == 0 {
        None
    } else if none_answered(answers) {
        Some(Err(answers.last()->Err_0))
    } else {
        match weighted_totals(answers, weights, answers.len()) {
            Some((total, weight_total)) => match decimal_quotient(total, weight_total) {
                Some(mean) => Some(Ok(mean)),
                None => None,
            },
            None => None,
        }
    }
}

/// The weights of those of the first `n` exchanges that answered, added up, in digits with
/// `places` of them after the point.
pub open spec fn answered_weight<P>(
    answers: Seq<Result<P, ExchangePriceCacheError>>,
    weights: Seq<Decimal>,
    places: nat,
    n: nat,
) -> int
    decreases n,
{
    if n == 0 {
        0
    } else {
        answered_weight(answers, weights, places, (n - 1) as nat) + if answers[n - 1] is Ok {
            at_scale(weights[n - 1], places)
        } else {
            0
        }
    }
}

/// The prices that the first `n` exchanges answered, times their weights, added up, in digits
/// with `price_places` and `weight_places` of them after the points.
pub open spec fn answered_price(
    answers: Seq<PriceAnswer>,
    weights: Seq<Decimal>,
    price_places: nat,
    weight_places: nat,
    n: nat,
) -> int
    decreases n,
{
    if n == 0 {
        0
    } else {
        answered_price(answers, weights, price_places, weight_places, (n - 1) as nat)
            + if answers[n - 1] is Ok {
            at_scale(answers[n - 1]->Ok_0, price_places) * at_scale(weights[n - 1], weight_places)
        } else {
            0
        }
    }
}

/// Whether a number of digits fits a decimal number.
pub open spec fn fits(digits: int) -> bool {
    -MAX_MANTISSA <= digits <= MAX_MANTISSA
}

/// Whether the weights of the exchanges that answered have at most `places` digits after the
/// point, and at this scale neither a weight nor a sum on the way has too many digits.
pub open spec fn weights_add_exactly<P>(
    answers: Seq<Result<P, ExchangePriceCacheError>>,
    weights: Seq<Decimal>,
    places: nat,
) -> bool {
    &&& places <= MAX_SCALE
    &&& forall|i: int|
        0 <= i < answers.len() && (#[trigger] answers[i]) is Ok ==> weights[i].places() <= places
            && fits(at_scale(weights[i], places))
    &&& forall|n: nat|
        n <= answers.len() ==> fits(#[trigger] answered_weight(answers, weights, places, n))
}

/// Whether exchanges answered, but their weights add up to zero, in sums that are exact, so that
/// nothing can be divided by them.
pub open spec fn weights_cancel<P>(
    answers: Seq<Result<P, ExchangePriceCacheError>>,
    weights: Seq<Decimal>,
) -> bool {
    &&& !none_answered(answers)
    &&& answered_weight(answers, weights, MAX_SCALE as nat, answers.len()) == 0
    &&& exists|places: nat| #[trigger] weights_add_exactly(answers, weights, places)
}

/// The weights of those of the first `n` exchanges that answered, added one to the other, or
/// `None` where a sum is out of range.
pub open spec fn weight_sum<P>(
    answers: Seq<Result<P, ExchangePriceCacheError>>,
    weights: Seq<Decimal>,
    n: nat,
) -> Option<Decimal>
    decreases n,
{
    if n == 0 {
        Some(Decimal::nothing())
    } else {
        match (weight_sum(answers, weights, (n - 1) as nat), answers[n - 1]) {
            (None, _) => None,
            (Some(sum), Err(_)) => Some(sum),
            (Some(sum), Ok(_)) => decimal_sum(sum, weights[n - 1]),
        }
    }
}

/// The sum of the weights at a larger scale has as many more zeros.
proof fn lemma_weight_rescaled<P>(
    answers: Seq<Result<P, ExchangePriceCacheError>>,
    weights: Seq<Decimal>,
    less: nat,
    more: nat,
    n: nat,
)
    requires
        less <= more,
        n <= answers.len(),
        forall|i: int|
            0 <= i < answers.len() && (#[trigger] answers[i]) is Ok ==> weights[i].places() <= less,
    ensures
        answered_weight(answers, weights, more, n) == answered_weight(answers, weights, less, n)
            * ten_to((more - less) as nat),
        answered_weight(answers, weights, more, n) == 0 <==> answered_weight(
            answers,
            weights,
            less,
            n,
        ) == 0,
    decreases n,
{
    let t = ten_to((more - less) as nat) as int;
    lemma_ten_to_positive((more - less) as nat);
    if n > 0 {
        lemma_weight_rescaled(answers, weights, less, more, (n - 1) as nat);
        let sum = answered_weight(answers, weights, less, (n - 1) as nat);
        let w = at_scale(weights[n - 1], less);
        if answers[n - 1] is Ok {
            lemma_rescale(weights[n - 1], less, more);
        }
        assert((sum + w) * t == sum * t + w * t) by (nonlinear_arith);
    }
    let all = answered_weight(answers, weights, less, n);
    assert(0 * t == 0);
    assert(all * t == 0 <==> all == 0) by (nonlinear_arith)
        requires
            t > 0,
    ;
}

/// Which weights count depends only on who answered.
proof fn lemma_weights_of_same_exchanges<P>(
    latest: Seq<Result<P, ExchangePriceCacheError>>,
    answers: Seq<PriceAnswer>,
    weights: Seq<Decimal>,
)
    requires
        latest.len() == answers.len(),
        forall|i: int| 0 <= i < latest.len() ==> (latest[i] is Ok <==> #[trigger] answers[i] is Ok),
    ensures
        weights_cancel(answers, weights) ==> weights_cancel(latest, weights),
{
    assert forall|places: nat, n: nat| n <= latest.len() implies #[trigger] answered_weight(
        latest,
        weights,
        places,
        n,
    ) == answered_weight(answers, weights, places, n) by {
        lemma_weight_of_same_exchanges(latest, answers, weights, places, n);
    }
    if weights_cancel(answers, weights) {
        let places = choose|places: nat| #[trigger] weights_add_exactly(answers, weights, places);
        assert forall|i: int| 0 <= i < latest.len() && (#[trigger] latest[i]) is Ok implies
            weights[i].places() <= places && fits(at_scale(weights[i], places)) by {
            assert(answers[i] is Ok);
        }
        assert forall|n: nat| n <= latest.len() implies fits(
            #[trigger] answered_weight(latest, weights, places, n),
        ) by {
            assert(fits(answered_weight(answers, weights, places, n)));
        }
        assert(weights_add_exactly(latest, weights, places));
        let i = choose|i: int| 0 <= i < answers.len() && !((#[trigger] answers[i]) is Err);
        assert(answers[i] is Ok);
        assert(!(latest[i] is Err));
    }
}

/// The sum of the weights depends only on who answered.
proof fn lemma_weight_of_same_exchanges<P>(
    latest: Seq<Result<P, ExchangePriceCacheError>>,
    answers: Seq<PriceAnswer>,
    weights: Seq<Decimal>,
    places: nat,
    n: nat,
)
    requires
        n <= latest.len() == answers.len(),
        forall|i: int| 0 <= i < latest.len() ==> (latest[i] is Ok <==> #[trigger] answers[i] is Ok),
    ensures
        answered_weight(latest, weights, places, n) == answered_weight(answers, weights, places, n),
    decreases n,
{
    if n > 0 {
        lemma_weight_of_same_exchanges(latest, answers, weights, places, (n - 1) as nat);
        assert(latest[n - 1] is Ok <==> answers[n - 1] is Ok);
    }
}

/// Whether the sums behind a mix are exact: the answered prices have at most `price_places`
/// digits after the point, their weights at most `weight_places`, and at these scales no weight,
/// no product and no sum on the way has too many digits.
pub open spec fn sums_are_exact(
    answers: Seq<PriceAnswer>,
    weights: Seq<Decimal>,
    price_places: nat,
    weight_places: nat,
) -> bool {
    &&& price_places + weight_places <= MAX_SCALE
    &&& forall|i: int|
        0 <= i < answers.len() && (#[trigger] answers[i]) is Ok ==> {
            &&& answers[i]->Ok_0.places() <= price_places
            &&& weights[i].places() <= weight_places
            &&& fits(at_scale(weights[i], weight_places))
            &&& fits(
                at_scale(answers[i]->Ok_0, price_places) * at_scale(weights[i], weight_places),
            )
        }
    &&& forall|n: nat|
        n <= answers.len() ==> fits(
            #[trigger] answered_price(answers, weights, price_places, weight_places, n),
        ) && fits(answered_weight(answers, weights, weight_places, n))
}

/// Where the sums are exact and the weights do not cancel, they do not add up to zero.
proof fn lemma_exact_sums_do_not_cancel(
    answers: Seq<PriceAnswer>,
    weights: Seq<Decimal>,
    price_places: nat,
    weight_places: nat,
)
    requires
        sums_are_exact(answers, weights, price_places, weight_places),
        !none_answered(answers),
        !weights_cancel(answers, weights),
    ensures
        answered_weight(answers, weights, weight_places, answers.len()) != 0,
{
    assert forall|n: nat| n <= answers.len() implies fits(
        #[trigger] answered_weight(answers, weights, weight_places, n),
    ) by {
        assert(fits(answered_price(answers, weights, price_places, weight_places, n)));
    }
    assert(weights_add_exactly(answers, weights, weight_places));
    lemma_weight_rescaled(answers, weights, weight_places, MAX_SCALE as nat, answers.len());
}

/// Whether all answered prices have exactly `price_places` digits after the point, and their
/// weights `weight_places`.
pub open spec fn at_one_scale(
    answers: Seq<PriceAnswer>,
    weights: Seq<Decimal>,
    price_places: nat,
    weight_places: nat,
) -> bool {
    forall|i: int|
        0 <= i < answers.len() && (#[trigger] answers[i]) is Ok ==> answers[i]->Ok_0.places()
            == price_places && weights[i].places() == weight_places
}

/// Whether `mixed` is `total` divided by `weight`, where `total` has `places` more digits after
/// the point, and `weight` is not zero. There is a mix where the ratio lies within the range of
/// decimal numbers, and it is the ratio, rounded to a neighbouring number where it has too many
/// digits. Where all prices have `one_scale`, and the digits divide without a remainder, the mix
/// has that scale too.
pub open spec fn is_weighted_mean(
    mixed: Option<PriceAnswer>,
    total: int,
    weight: int,
    places: nat,
    one_scale: bool,
) -> bool {
    &&& weight != 0
    &&& !(mixed matches Some(Err(_)))
    &&& ratio_fits(total, weight * ten_to(places)) ==> mixed is Some
    &&& mixed matches Some(Ok(mean)) ==> is_rounded_ratio(mean, total, weight * ten_to(places))
    &&& total == 0 ==> {
        &&& mixed matches Some(Ok(mean))
        &&& mean.digits() == 0
        &&& mean.places() == 0
    }
    &&& one_scale && total != 0 && total % weight == 0 ==> {
        &&& mixed matches Some(Ok(mean))
        &&& mean.digits() == total / weight
        &&& mean.places() == places
    }
}

/// Whether `mixed` is the mean of the answered prices by weight, wherever the sums behind it are
/// exact.
pub open spec fn is_mean_where_exact(
    mixed: Option<PriceAnswer>,
    answers: Seq<PriceAnswer>,
    weights: Seq<Decimal>,
) -> bool {
    forall|price_places: nat, weight_places: nat| #[trigger]
        sums_are_exact(answers, weights, price_places, weight_places) && !none_answered(answers)
            ==> is_weighted_mean(
            mixed,
            answered_price(answers, weights, price_places, weight_places, answers.len()),
            answered_weight(answers, weights, weight_places, answers.len()),
            price_places,
            at_one_scale(answers, weights, price_places, weight_places),
        )
}

/// The sizes of the weights of those of the first `n` exchanges that answered, added up, in units.
pub open spec fn weight_size<P>(
    answers: Seq<Result<P, ExchangePriceCacheError>>,
    weights: Seq<Decimal>,
    n: nat,
) -> int
    decreases n,
{
    if n == 0 {
        0
    } else {
        weight_size(answers, weights, (n - 1) as nat) + if answers[n - 1] is Ok {
            size(units(weights[n - 1]))
        } else {
            0
        }
    }
}

/// The sizes of the prices that the first `n` exchanges answered, times their weights, added up,
/// in units times units.
pub open spec fn price_size(answers: Seq<PriceAnswer>, weights: Seq<Decimal>, n: nat) -> int
    decreases n,
{
    if n == 0 {
        0
    } else {
        price_size(answers, weights, (n - 1) as nat) + if answers[n - 1] is Ok {
            size(units(answers[n - 1]->Ok_0) * units(weights[n - 1]))
        } else {
            0
        }
    }
}

/// Whether `mixed` is the mean of the answered prices by weight up to rounding: times the weights
/// it differs from the weighted sum by no more than a unit for each weight and two for each
/// exchange, and a few parts in `PRECISION` for each exchange.
pub open spec fn is_mean_up_to_rounding(
    mixed: Option<PriceAnswer>,
    answers: Seq<PriceAnswer>,
    weights: Seq<Decimal>,
) -> bool {
    mixed matches Some(Ok(mean)) ==> {
        let n = answers.len();
        PRECISION * size(
            units(mean) * answered_weight(answers, weights, 28, n) - answered_price(
                answers,
                weights,
                28,
                28,
                n,
            ),
        ) <= PRECISION * (weight_size(answers, weights, n) + 2 * n * UNITS) + 6 * n * (price_size(
            answers,
            weights,
            n,
        ) + size(units(mean)) * weight_size(answers, weights, n))
    }
}

/// Whether prices and weights lie well within the range of decimal numbers: no weight is negative,
/// and not all are zero, and four times the prices, the sum of the weights and that of the prices
/// times their weights are in range.
pub open spec fn well_in_range(answers: Seq<PriceAnswer>, weights: Seq<Decimal>) -> bool {
    &&& forall|i: int|
        0 <= i < answers.len() && (#[trigger] answers[i]) is Ok ==> weights[i].digits() >= 0 && 4
            * size(units(answers[i]->Ok_0)) <= MAX_MANTISSA * UNITS
    &&& 0 < 4 * weight_size(answers, weights, answers.len()) <= MAX_MANTISSA * UNITS
    &&& 4 * price_size(answers, weights, answers.len()) <= MAX_MANTISSA * (UNITS * UNITS)
}

/// Whether a price, and `weight` with `places` digits after the point, have a product that is
/// exact.
pub open spec fn product_is_exact(price: Decimal, weight: int, places: nat) -> bool {
    &&& 0 <= weight <= MAX_MANTISSA
    &&& price.places() + places <= MAX_SCALE
    &&& fits(price.digits() * weight)
}

/// Whether all exchanges that answered have the same price, and weights that are not negative
/// with the same number of digits after the point, not all zero and not too large for exact sums.
pub open spec fn agree_on(
    answers: Seq<PriceAnswer>,
    weights: Seq<Decimal>,
    price: Decimal,
    places: nat,
) -> bool {
    &&& forall|i: int|
        0 <= i < answers.len() && (#[trigger] answers[i]) is Ok ==> {
            &&& answers[i]->Ok_0 == price
            &&& weights[i].places() == places
            &&& weights[i].digits() >= 0
        }
    &&& answered_weight(answers, weights, places, answers.len()) > 0
    &&& product_is_exact(price, answered_weight(answers, weights, places, answers.len()), places)
}

/// Whether `mixed` is the price that all exchanges which answered agree on, if they do.
pub open spec fn keeps_agreement(
    mixed: Option<PriceAnswer>,
    answers: Seq<PriceAnswer>,
    weights: Seq<Decimal>,
) -> bool {
    forall|price: Decimal, places: nat| #[trigger]
        agree_on(answers, weights, price, places) ==> {
            &&& mixed matches Some(Ok(mean))
            &&& price.digits() != 0 ==> mean == price
            &&& price.digits() == 0 ==> mean.digits() == 0
        }
}

/// Whether `mixed` is the mix of the given answers by weight.
pub open spec fn is_mix(
    mixed: Option<PriceAnswer>,
    answers: Seq<PriceAnswer>,
    weights: Seq<Decimal>,
) -> bool {
    &&& mixed == mixed_price(answers, weights)
    &&& is_mean_where_exact(mixed, answers, weights)
    &&& is_mean_up_to_rounding(mixed, answers, weights)
    &&& well_in_range(answers, weights) ==> mixed is Some && mixed->0 is Ok
    &&& keeps_agreement(mixed, answers, weights)
}

/// Whether totals have these digits at the given scales, and exactly these scales where all
/// their terms have them.
spec fn has_sums(
    totals: (Decimal, Decimal),
    total: int,
    weight: int,
    price_places: nat,
    weight_places: nat,
    one_scale: bool,
) -> bool {
    &&& totals.0.places() <= price_places + weight_places
    &&& at_scale(totals.0, price_places + weight_places) == total
    &&& totals.1.places() <= weight_places
    &&& at_scale(totals.1, weight_places) == weight
    &&& one_scale && totals.0.digits() != 0 ==> totals.0.places() == price_places + weight_places
    &&& one_scale && totals.1.digits() != 0 ==> totals.1.places() == weight_places
}

/// Smaller weights keep a product exact.
proof fn lemma_smaller_weight_exact(price: Decimal, less: int, more: int, places: nat)
    requires
        0 <= less <= more,
        product_is_exact(price, more, places),
    ensures
        product_is_exact(price, less, places),
{
    let p = price.digits();
    assert(-MAX_MANTISSA <= p * less <= MAX_MANTISSA) by (nonlinear_arith)
        requires
            0 <= less <= more,
            -MAX_MANTISSA <= p * more <= MAX_MANTISSA,
            MAX_MANTISSA > 0,
    ;
}

/// The weight of the exchanges that answered grows with their number, and is zero where none
/// did.
pub(crate) proof fn lemma_answered_weight_grows(
    answers: Seq<PriceAnswer>,
    weights: Seq<Decimal>,
    places: nat,
    less: nat,
    more: nat,
)
    requires
        less <= more <= answers.len(),
        forall|i: int|
            0 <= i < answers.len() && (#[trigger] answers[i]) is Ok ==> weights[i].digits() >= 0,
    ensures
        0 <= answered_weight(answers, weights, places, less) <= answered_weight(
            answers,
            weights,
            places,
            more,
        ),
        none_answered(answers) ==> answered_weight(answers, weights, places, more) == 0,
    decreases more,
{
    if more > 0 {
        let last = weights[more - 1];
        let t = ten_to((places - last.places()) as nat) as int;
        lemma_ten_to_positive((places - last.places()) as nat);
        assert(last.digits() >= 0 ==> last.digits() * t >= 0) by (nonlinear_arith)
            requires
                t > 0,
        ;
        if less < more {
            lemma_answered_weight_grows(answers, weights, places, less, (more - 1) as nat);
        } else {
            lemma_answered_weight_grows(
                answers,
                weights,
                places,
                (less - 1) as nat,
                (more - 1) as nat,
            );
        }
        assert(answers[more - 1] is Ok || answers[more - 1] is Err);
    }
}

/// Where all exchanges that answered agree on a price, the sums are exact, and the weighted sum
/// is that price times the sum of the weights.
proof fn lemma_agreement_is_exact(
    answers: Seq<PriceAnswer>,
    weights: Seq<Decimal>,
    price: Decimal,
    places: nat,
)
    requires
        agree_on(answers, weights, price, places),
    ensures
        !none_answered(answers),
        sums_are_exact(answers, weights, price.places(), places),
        at_one_scale(answers, weights, price.places(), places),
        answered_price(answers, weights, price.places(), places, answers.len()) == price.digits()
            * answered_weight(answers, weights, places, answers.len()),
{
    let all = answered_weight(answers, weights, places, answers.len());
    lemma_rescale(price, price.places(), price.places());
    lemma_answered_weight_grows(answers, weights, places, 0, answers.len());
    assert forall|n: nat| n <= answers.len() implies fits(
        #[trigger] answered_price(answers, weights, price.places(), places, n),
    ) && fits(answered_weight(answers, weights, places, n)) by {
        lemma_answered_weight_grows(answers, weights, places, 0, n);
        lemma_answered_weight_grows(answers, weights, places, n, answers.len());
        lemma_smaller_weight_exact(
            price,
            answered_weight(answers, weights, places, n),
            all,
            places,
        );
        lemma_agreed_sum(answers, weights, price, places, n);
    }
    assert forall|i: int| 0 <= i < answers.len() && (#[trigger] answers[i]) is Ok implies fits(
        at_scale(weights[i], places),
    ) && fits(at_scale(answers[i]->Ok_0, price.places()) * at_scale(weights[i], places)) by {
        lemma_rescale(weights[i], places, places);
        lemma_answered_weight_grows(answers, weights, places, 0, i as nat);
        lemma_answered_weight_grows(answers, weights, places, (i + 1) as nat, answers.len());
        lemma_smaller_weight_exact(price, weights[i].digits(), all, places);
    }
    lemma_agreed_sum(answers, weights, price, places, answers.len());
}

/// Where all exchanges that answered agree on a price, the weighted sum of the first `n` of them
/// is that price times the sum of their weights.
proof fn lemma_agreed_sum(
    answers: Seq<PriceAnswer>,
    weights: Seq<Decimal>,
    price: Decimal,
    places: nat,
    n: nat,
)
    requires
        agree_on(answers, weights, price, places),
        n <= answers.len(),
    ensures
        answered_price(answers, weights, price.places(), places, n) == price.digits()
            * answered_weight(answers, weights, places, n),
    decreases n,
{
    let p = price.digits();
    lemma_rescale(price, price.places(), price.places());
    if n > 0 {
        lemma_agreed_sum(answers, weights, price, places, (n - 1) as nat);
        let before = answered_weight(answers, weights, places, (n - 1) as nat);
        let w = at_scale(weights[n - 1], places);
        assert(answers[n - 1] is Ok ==> answers[n - 1]->Ok_0 == price);
        assert(p * (before + w) == p * before + p * w) by (nonlinear_arith);
    }
}

/// The quotient of totals is the ratio of their digits at the given scales.
proof fn lemma_ratio_of_totals(
    totals: (Decimal, Decimal),
    total: int,
    weight: int,
    price_places: nat,
    weight_places: nat,
    one_scale: bool,
)
    requires
        has_sums(totals, total, weight, price_places, weight_places, one_scale),
    ensures
        totals.0.digits() == 0 <==> total == 0,
        totals.1.digits() == 0 <==> weight == 0,
        one_scale && total != 0 ==> totals.0.digits() == total,
        one_scale && weight != 0 ==> totals.1.digits() == weight,
        weight != 0 ==> weight * ten_to(price_places) != 0,
        weight != 0 ==> quotient_denominator(totals.0, totals.1) != 0,
        quotient_numerator(totals.0, totals.1) * (weight * ten_to(price_places)) == total
            * quotient_denominator(totals.0, totals.1),
{
    let (a, b) = totals;
    let places = price_places + weight_places;
    lemma_rescale(a, places, places);
    lemma_rescale(b, weight_places, weight_places);
    let a_zeros = (places - a.places()) as nat;
    let b_zeros = (weight_places - b.places()) as nat;
    lemma_ten_to_positive(price_places);
    lemma_ten_to_positive(a.places());
    lemma_ten_to_sum(a_zeros, a.places());
    lemma_ten_to_sum(b_zeros, b.places());
    lemma_ten_to_sum(price_places, weight_places);
    assert(a_zeros + a.places() == places && b_zeros + b.places() == weight_places);
    let x = a.digits();
    let y = b.digits();
    let (az, bz, ap, bp, pp) = (
        ten_to(a_zeros) as int,
        ten_to(b_zeros) as int,
        ten_to(a.places()) as int,
        ten_to(b.places()) as int,
        ten_to(price_places) as int,
    );
    assert((x * bp) * ((y * bz) * pp) == (x * y) * (pp * (bz * bp))) by (nonlinear_arith);
    assert((x * az) * (y * ap) == (x * y) * (az * ap)) by (nonlinear_arith);
    assert(weight != 0 ==> weight * pp != 0) by (nonlinear_arith)
        requires
            pp > 0,
    ;
    assert(y != 0 ==> y * ap != 0) by (nonlinear_arith)
        requires
            ap > 0,
    ;
}

/// Whether totals differ from the exact sums of the first `n` exchanges by no more than rounding.
spec fn has_sums_up_to_rounding(
    totals: (Decimal, Decimal),
    answers: Seq<PriceAnswer>,
    weights: Seq<Decimal>,
    n: nat,
) -> bool {
    &&& PRECISION * size(
        units(totals.0) * UNITS - answered_price(answers, weights, 28, 28, n),
    ) <= n * (PRECISION * UNITS) + 4 * (n * price_size(answers, weights, n))
    &&& PRECISION * size(units(totals.1) - answered_weight(answers, weights, 28, n)) <= 2 * (n
        * weight_size(answers, weights, n))
    &&& totals.0.places() <= MAX_SCALE
    &&& totals.1.places() <= MAX_SCALE
}

/// The sizes of sums are not above the sums of sizes.
proof fn lemma_sizes(answers: Seq<PriceAnswer>, weights: Seq<Decimal>, n: nat)
    ensures
        size(answered_weight(answers, weights, 28, n)) <= weight_size(answers, weights, n),
        size(answered_price(answers, weights, 28, 28, n)) <= price_size(answers, weights, n),
    decreases n,
{
    if n > 0 {
        lemma_sizes(answers, weights, (n - 1) as nat);
    }
}

/// The size of the sum of the weights is not above the sum of their sizes.
proof fn lemma_weight_size<P>(
    answers: Seq<Result<P, ExchangePriceCacheError>>,
    weights: Seq<Decimal>,
    n: nat,
)
    ensures
        size(answered_weight(answers, weights, 28, n)) <= weight_size(answers, weights, n),
    decreases n,
{
    if n > 0 {
        lemma_weight_size(answers, weights, (n - 1) as nat);
    }
}

/// The rounding of a product and of a sum adds to the rounding of the sum before.
proof fn lemma_rounded_step(
    n: int,
    before: int,
    exact_before: int,
    size_before: int,
    product: int,
    exact_product: int,
    after: int,
)
    requires
        0 <= n <= 0xffff_ffff_ffff_ffff,
        size(exact_before) <= size_before,
        PRECISION * size(before - exact_before) <= n * (PRECISION * UNITS) + 4 * (n * size_before),
        is_close(product, exact_product, UNITS as int),
        PRECISION * size(after - (before + product)) <= size(before + product),
    ensures
        PRECISION * size(after - (exact_before + exact_product)) <= (n + 1) * (PRECISION * UNITS)
            + 4 * ((n + 1) * (size_before + size(exact_product))),
{
    let k: int = 1_000_000_000_000_000_000_000_000_000;
    let u: int = 10_000_000_000_000_000_000_000_000_000;
    let x = size(exact_product);
    let q = n * size_before;
    let e = size(before - exact_before);
    let d = size(product - exact_product);
    let y = size(before + product);
    let t = size(after - (exact_before + exact_product));
    assert(0 <= q && 4 * q <= k * size_before) by (nonlinear_arith)
        requires
            0 <= n <= 0xffff_ffff_ffff_ffff,
            q == n * size_before,
            0 <= size_before,
            k == 1_000_000_000_000_000_000_000_000_000,
    ;
    assert((n + 1) * (size_before + x) == q + size_before + n * x + x) by (nonlinear_arith)
        requires
            q == n * size_before,
    ;
    assert(0 <= n * x) by (nonlinear_arith)
        requires
            0 <= n,
            0 <= x,
    ;
    assert(n * (k * u) == (k * u) * n) by (nonlinear_arith);
    assert((n + 1) * (k * u) == (k * u) * n + k * u) by (nonlinear_arith);
    assert(y <= size_before + x + e + d);
    assert(k * t <= y + k * e + k * d);
}

/// The rounding of a sum adds to the rounding of the sum before.
proof fn lemma_rounded_weight(
    n: int,
    before: int,
    exact_before: int,
    size_before: int,
    weight: int,
    after: int,
)
    requires
        0 <= n <= 0xffff_ffff_ffff_ffff,
        size(exact_before) <= size_before,
        PRECISION * size(before - exact_before) <= 2 * (n * size_before),
        PRECISION * size(after - (before + weight)) <= size(before + weight),
    ensures
        PRECISION * size(after - (exact_before + weight)) <= 2 * ((n + 1) * (size_before + size(
            weight,
        ))),
{
    let k: int = 1_000_000_000_000_000_000_000_000_000;
    let x = size(weight);
    let q = n * size_before;
    let e = size(before - exact_before);
    assert(0 <= q && 4 * q <= k * size_before) by (nonlinear_arith)
        requires
            0 <= n <= 0xffff_ffff_ffff_ffff,
            q == n * size_before,
            0 <= size_before,
            k == 1_000_000_000_000_000_000_000_000_000,
    ;
    assert((n + 1) * (size_before + x) == q + size_before + n * x + x) by (nonlinear_arith)
        requires
            q == n * size_before,
    ;
    assert(0 <= n * x) by (nonlinear_arith)
        requires
            0 <= n,
            0 <= x,
    ;
    assert(size(before + weight) <= size_before + x + e);
}

/// An exchange without a price leaves the rounding as it is.
proof fn lemma_rounding_stays(n: int, amount: int)
    requires
        0 <= n,
        0 <= amount,
    ensures
        n * amount <= (n + 1) * amount,
{
    assert(n * amount <= (n + 1) * amount) by (nonlinear_arith)
        requires
            0 <= n,
            0 <= amount,
    ;
}

/// What is added for one more exchange keeps totals near the exact sums.
proof fn lemma_one_more_exchange(
    totals: (Decimal, Decimal),
    after: (Decimal, Decimal),
    answers: Seq<PriceAnswer>,
    weights: Seq<Decimal>,
    n: nat,
)
    requires
        n < 0xffff_ffff_ffff_ffff,
        has_sums_up_to_rounding(totals, answers, weights, n),
        match answers[n as int] {
            Err(_) => after == totals,
            Ok(price) => {
                let weight = weights[n as int];
                &&& after.0.places() <= MAX_SCALE
                &&& after.1.places() <= MAX_SCALE
                &&& PRECISION * size(units(after.1) - (units(totals.1) + units(weight))) <= size(
                    units(totals.1) + units(weight),
                )
                &&& exists|product: int| #[trigger]
                    is_close(product, units(price) * units(weight), UNITS as int) && PRECISION
                        * size(units(after.0) * UNITS - (units(totals.0) * UNITS + product))
                        <= size(units(totals.0) * UNITS + product)
            },
        },
    ensures
        has_sums_up_to_rounding(after, answers, weights, n + 1),
{
    let p = answered_price(answers, weights, 28, 28, n);
    let w = answered_weight(answers, weights, 28, n);
    let a = price_size(answers, weights, n);
    let b = weight_size(answers, weights, n);
    lemma_sizes(answers, weights, n);
    match answers[n as int] {
        Err(_) => {
            lemma_rounding_stays(n as int, a);
            lemma_rounding_stays(n as int, b);
            lemma_rounding_stays(n as int, PRECISION * UNITS);
        },
        Ok(price) => {
            let weight = weights[n as int];
            let product = choose|product: int| #[trigger]
                is_close(product, units(price) * units(weight), UNITS as int) && PRECISION * size(
                    units(after.0) * UNITS - (units(totals.0) * UNITS + product),
                ) <= size(units(totals.0) * UNITS + product);
            lemma_rounded_step(
                n as int,
                units(totals.0) * UNITS,
                p,
                a,
                product,
                units(price) * units(weight),
                units(after.0) * UNITS,
            );
            lemma_rounded_weight(
                n as int,
                units(totals.1),
                w,
                b,
                units(weight),
                units(after.1),
            );
        },
    }
}

/// There is no weight where no exchange answered.
proof fn lemma_weight_needs_answer(answers: Seq<PriceAnswer>, weights: Seq<Decimal>, n: nat)
    requires
        n <= answers.len(),
    ensures
        none_answered(answers) ==> weight_size(answers, weights, n) == 0,
    decreases n,
{
    if n > 0 {
        lemma_weight_needs_answer(answers, weights, (n - 1) as nat);
        assert(answers[n - 1] is Ok || answers[n - 1] is Err);
    }
}

/// The sums of sizes grow with the number of exchanges.
proof fn lemma_sizes_grow(answers: Seq<PriceAnswer>, weights: Seq<Decimal>, less: nat, more: nat)
    requires
        less <= more,
    ensures
        0 <= weight_size(answers, weights, less) <= weight_size(answers, weights, more),
        0 <= price_size(answers, weights, less) <= price_size(answers, weights, more),
    decreases more,
{
    if less < more {
        lemma_sizes_grow(answers, weights, less, (more - 1) as nat);
    } else if more > 0 {
        lemma_sizes_grow(answers, weights, (less - 1) as nat, (more - 1) as nat);
    }
}

/// Totals are not much larger than the exact sums.
proof fn lemma_totals_in_range(n: int, total: int, exact: int, exact_size: int)
    requires
        0 <= n <= 0xffff_ffff_ffff_ffff,
        size(exact) <= exact_size,
        PRECISION * size(total - exact) <= n * (PRECISION * UNITS) + 4 * (n * exact_size),
    ensures
        size(total) <= 2 * exact_size + n * UNITS,
{
    let k: int = 1_000_000_000_000_000_000_000_000_000;
    let u: int = 10_000_000_000_000_000_000_000_000_000;
    let q = n * exact_size;
    assert(0 <= q && 4 * q <= k * exact_size) by (nonlinear_arith)
        requires
            0 <= n <= 0xffff_ffff_ffff_ffff,
            q == n * exact_size,
            0 <= exact_size,
            k == 1_000_000_000_000_000_000_000_000_000,
    ;
    assert(n * (k * u) == k * (n * u)) by (nonlinear_arith);
    assert(k * size(total - exact) <= k * (n * u + exact_size));
    assert(size(total - exact) <= n * u + exact_size) by (nonlinear_arith)
        requires
            k * size(total - exact) <= k * (n * u + exact_size),
            k > 0,
    ;
}

/// Well within range, one more exchange can be added.
proof fn lemma_next_in_range(
    totals: (Decimal, Decimal),
    answers: Seq<PriceAnswer>,
    weights: Seq<Decimal>,
    n: nat,
)
    requires
        n < answers.len() <= 0xffff_ffff_ffff_ffff,
        answers[n as int] is Ok,
        well_in_range(answers, weights),
        has_sums_up_to_rounding(totals, answers, weights, n),
    ensures
        size(units(totals.1) + units(weights[n as int])) <= MAX_MANTISSA * UNITS,
        size(units(totals.0)) * UNITS + 2 * size(
            units(answers[n as int]->Ok_0) * units(weights[n as int]),
        ) + UNITS <= MAX_MANTISSA * (UNITS * UNITS),
{
    let u: int = 10_000_000_000_000_000_000_000_000_000;
    let k: int = 1_000_000_000_000_000_000_000_000_000;
    let b = weight_size(answers, weights, n);
    let q = n * b;
    lemma_sizes(answers, weights, n);
    lemma_sizes_grow(answers, weights, n, n + 1);
    lemma_sizes_grow(answers, weights, n + 1, answers.len());
    lemma_totals_in_range(
        n as int,
        units(totals.0) * UNITS,
        answered_price(answers, weights, 28, 28, n),
        price_size(answers, weights, n),
    );
    let y = units(totals.0);
    assert(size(y * u) == size(y) * u) by (nonlinear_arith)
        requires
            u > 0,
    ;
    assert(0 <= q && 4 * q <= k * b) by (nonlinear_arith)
        requires
            0 <= n <= 0xffff_ffff_ffff_ffff,
            q == n * b,
            0 <= b,
            k == 1_000_000_000_000_000_000_000_000_000,
    ;
}

/// Well within range, the totals can be divided.
proof fn lemma_quotient_in_range(
    totals: (Decimal, Decimal),
    answers: Seq<PriceAnswer>,
    weights: Seq<Decimal>,
)
    requires
        1 <= answers.len() <= 0xffff_ffff_ffff_ffff,
        well_in_range(answers, weights),
        has_sums_up_to_rounding(totals, answers, weights, answers.len()),
    ensures
        totals.1.digits() != 0,
        ratio_fits(
            quotient_numerator(totals.0, totals.1),
            quotient_denominator(totals.0, totals.1),
        ),
{
    let u: int = 10_000_000_000_000_000_000_000_000_000;
    let k: int = 1_000_000_000_000_000_000_000_000_000;
    let max: int = 79_228_162_514_264_337_593_543_950_335;
    let n = answers.len();
    let a = price_size(answers, weights, n);
    let b = weight_size(answers, weights, n);
    let q = n * b;
    let v = units(totals.1);
    let s = units(totals.0);
    lemma_sizes(answers, weights, n);
    lemma_sizes_of_weights(answers, weights, n);
    assert(0 <= q && 8 * q <= k * b) by (nonlinear_arith)
        requires
            0 <= n <= 0xffff_ffff_ffff_ffff,
            q == n * b,
            0 <= b,
            k == 1_000_000_000_000_000_000_000_000_000,
    ;
    lemma_totals_in_range(
        n as int,
        s * UNITS,
        answered_price(answers, weights, 28, 28, n),
        a,
    );
    assert(size(s * u) == size(s) * u) by (nonlinear_arith)
        requires
            u > 0,
    ;
    assert(4 * a <= max * u * b);
    assert(n * u <= (max * u / 8) * b) by (nonlinear_arith)
        requires
            n <= 0xffff_ffff_ffff_ffff,
            b >= 1,
            u == 10_000_000_000_000_000_000_000_000_000,
            max == 79_228_162_514_264_337_593_543_950_335,
    ;
    assert(4 * v >= 3 * b);
    assert(size(s) * u <= (max * u) * v);
    assert(size(s) <= max * v) by (nonlinear_arith)
        requires
            size(s) * u <= (max * u) * v,
            u > 0,
    ;
    lemma_rescale(totals.1, 28, 28);
    let x = (28 - totals.0.places()) as nat;
    let y = (28 - totals.1.places()) as nat;
    lemma_ten_to_sum(x, totals.0.places());
    lemma_ten_to_sum(y, totals.1.places());
    lemma_ten_to_positive(totals.0.places());
    lemma_ten_to_positive(totals.1.places());
    let (d, e) = (totals.0.digits(), totals.1.digits());
    let (dx, ey, dp, ep) = (
        ten_to(x) as int,
        ten_to(y) as int,
        ten_to(totals.0.places()) as int,
        ten_to(totals.1.places()) as int,
    );
    assert((d * ep) * (e * ey) == (d * e) * (ey * ep)) by (nonlinear_arith);
    assert((d * dx) * (e * dp) == (d * e) * (dx * dp)) by (nonlinear_arith);
    assert(e * dp != 0) by (nonlinear_arith)
        requires
            e != 0,
            dp > 0,
    ;
    lemma_rounded_equal_ratios(
        totals.0,
        quotient_numerator(totals.0, totals.1),
        quotient_denominator(totals.0, totals.1),
        s,
        v,
    );
}

/// With weights that are not negative, the sum of their sizes is their sum, and the prices, times
/// their weights, are at most the largest price times the weights.
proof fn lemma_sizes_of_weights(answers: Seq<PriceAnswer>, weights: Seq<Decimal>, n: nat)
    requires
        n <= answers.len(),
        forall|i: int|
            0 <= i < answers.len() && (#[trigger] answers[i]) is Ok ==> weights[i].digits() >= 0 && 4
                * size(units(answers[i]->Ok_0)) <= MAX_MANTISSA * UNITS,
    ensures
        weight_size(answers, weights, n) == answered_weight(answers, weights, 28, n),
        4 * price_size(answers, weights, n) <= MAX_MANTISSA * UNITS * weight_size(
            answers,
            weights,
            n,
        ),
    decreases n,
{
    if n > 0 {
        lemma_sizes_of_weights(answers, weights, (n - 1) as nat);
        if answers[n - 1] is Ok {
            let w = units(weights[n - 1]);
            let p = units(answers[n - 1]->Ok_0);
            let t = ten_to((28 - weights[n - 1].places()) as nat) as int;
            let d = weights[n - 1].digits();
            let limit = MAX_MANTISSA * UNITS;
            lemma_ten_to_positive((28 - weights[n - 1].places()) as nat);
            assert(w >= 0) by (nonlinear_arith)
                requires
                    d >= 0,
                    t > 0,
                    w == d * t,
            ;
            assert(4 * size(p * w) <= limit * w) by (nonlinear_arith)
                requires
                    w >= 0,
                    4 * size(p) <= limit,
            ;
        }
    }
}

/// The rounding of a quotient adds to that of the totals.
proof fn lemma_rounded_mean(
    n: int,
    mean: int,
    total: int,
    exact_total: int,
    total_size: int,
    weight: int,
    exact_weight: int,
    weight_size: int,
)
    requires
        1 <= n <= 0xffff_ffff_ffff_ffff,
        size(exact_total) <= total_size,
        size(exact_weight) <= weight_size,
        PRECISION * size(total - exact_total) <= n * (PRECISION * UNITS) + 4 * (n * total_size),
        PRECISION * size(weight - exact_weight) <= 2 * (n * weight_size),
        is_close(mean * weight, total, size(weight)),
    ensures
        PRECISION * size(mean * exact_weight - exact_total) <= PRECISION * (weight_size + 2 * n
            * UNITS) + 6 * n * (total_size + size(mean) * weight_size),
{
    let k: int = 1_000_000_000_000_000_000_000_000_000;
    let u: int = 10_000_000_000_000_000_000_000_000_000;
    let m = size(mean);
    let a = n * total_size;
    let b = n * weight_size;
    let f = size(weight - exact_weight);
    let e = size(total - exact_total);
    let g = size(mean * weight - total);
    let mf = m * f;
    let mb = m * b;
    assert(0 <= a && total_size <= a && 4 * a <= k * total_size) by (nonlinear_arith)
        requires
            1 <= n <= 0xffff_ffff_ffff_ffff,
            a == n * total_size,
            0 <= total_size,
            k == 1_000_000_000_000_000_000_000_000_000,
    ;
    assert(0 <= b && 4 * b <= k * weight_size) by (nonlinear_arith)
        requires
            1 <= n <= 0xffff_ffff_ffff_ffff,
            b == n * weight_size,
            0 <= weight_size,
            k == 1_000_000_000_000_000_000_000_000_000,
    ;
    assert(size(mean * weight - mean * exact_weight) == mf) by (nonlinear_arith)
        requires
            m == size(mean),
            f == size(weight - exact_weight),
            mf == m * f,
    ;
    assert(k * mf <= 2 * mb && 0 <= mb) by (nonlinear_arith)
        requires
            k * f <= 2 * b,
            0 <= m,
            0 <= b,
            mf == m * f,
            mb == m * b,
            k > 0,
    ;
    assert(n * (k * u) == (k * u) * n) by (nonlinear_arith);
    assert(k * (weight_size + 2 * n * u) == k * weight_size + 2 * ((k * u) * n))
        by (nonlinear_arith);
    assert(6 * n * (total_size + m * weight_size) == 6 * a + 6 * mb) by (nonlinear_arith)
        requires
            a == n * total_size,
            b == n * weight_size,
            mb == m * b,
    ;
    assert(size(total) <= total_size + e);
    assert(size(weight) <= weight_size + f);
    assert(2 * PRECISION * g <= PRECISION * size(weight) + 2 * size(total));
    assert(2 * (k * g) <= k * size(weight) + 2 * size(total));
    assert(size(mean * exact_weight - exact_total) <= g + mf + e);
}

/// Adds a price to the totals.
fn add_price(totals: (Decimal, Decimal), price: Decimal, weight: Decimal) -> (added: Option<
    (Decimal, Decimal),
>)
    ensures
        added == add_weighted(totals, price, weight),
        size(units(totals.1) + units(weight)) <= MAX_MANTISSA * UNITS && size(units(totals.0))
            * UNITS + 2 * size(units(price) * units(weight)) + UNITS <= MAX_MANTISSA * (UNITS
            * UNITS) ==> added is Some,
        added matches Some(after) ==> {
            &&& after.0.places() <= MAX_SCALE
            &&& after.1.places() <= MAX_SCALE
            &&& PRECISION * size(units(after.1) - (units(totals.1) + units(weight))) <= size(
                units(totals.1) + units(weight),
            )
            &&& exists|product: int| #[trigger]
                is_close(product, units(price) * units(weight), UNITS as int) && PRECISION * size(
                    units(after.0) * UNITS - (units(totals.0) * UNITS + product),
                ) <= size(units(totals.0) * UNITS + product)
        },
        forall|total: int, before: int, price_places: nat, weight_places: nat, one_scale: bool|
            #[trigger] has_sums(totals, total, before, price_places, weight_places, one_scale)
                && price.places() <= price_places && weight.places() <= weight_places
                && price_places + weight_places <= MAX_SCALE && (one_scale ==> price.places()
                == price_places && weight.places() == weight_places) && fits(total) && fits(before)
                && fits(at_scale(weight, weight_places)) && fits(
                at_scale(price, price_places) * at_scale(weight, weight_places),
            ) && fits(
                total + at_scale(price, price_places) * at_scale(weight, weight_places),
            ) && fits(before + at_scale(weight, weight_places)) ==> added is Some && has_sums(
                added->0,
                total + at_scale(price, price_places) * at_scale(weight, weight_places),
                before + at_scale(weight, weight_places),
                price_places,
                weight_places,
                one_scale,
            ),
{
    let weight_total = sum_of(totals.1, weight);
    let weighted = product_of(price, weight);
    let added = match (weight_total, weighted) {
        (Some(weight_total), Some(weighted)) => match sum_of(totals.0, weighted) {
            Some(total) => Some((total, weight_total)),
            None => None,
        },
        _ => None,
    };
    proof {
        let u: int = 10_000_000_000_000_000_000_000_000_000;
        if let Some(weighted) = weighted {
            let y = units(totals.0);
            let z = units(weighted);
            assert(size(z * u) == u * size(z)) by (nonlinear_arith)
                requires
                    u > 0,
            ;
            assert(size(y + z) * u <= size(y) * u + size(z) * u) by (nonlinear_arith)
                requires
                    u > 0,
            ;
        }
        if let (Some((total, _)), Some(weighted)) = (added, weighted) {
            let x = units(total);
            let y = units(totals.0);
            let z = units(weighted);
            assert(is_close(z * u, units(price) * units(weight), u));
            assert(size(x * u - (y * u + z * u)) == u * size(x - (y + z))) by (nonlinear_arith)
                requires
                    u > 0,
            ;
            assert(size(y * u + z * u) == u * size(y + z)) by (nonlinear_arith)
                requires
                    u > 0,
            ;
        }
    }
    assert forall|
        total: int,
        before: int,
        price_places: nat,
        weight_places: nat,
        one_scale: bool,
    |
        #[trigger] has_sums(totals, total, before, price_places, weight_places, one_scale)
            && price.places() <= price_places && weight.places() <= weight_places && price_places
            + weight_places <= MAX_SCALE && (one_scale ==> price.places() == price_places
            && weight.places() == weight_places) && fits(total) && fits(before) && fits(
            at_scale(weight, weight_places),
        ) && fits(at_scale(price, price_places) * at_scale(weight, weight_places)) && fits(
            total + at_scale(price, price_places) * at_scale(weight, weight_places),
        ) && fits(before + at_scale(weight, weight_places)) implies added is Some && has_sums(
        added->0,
        total + at_scale(price, price_places) * at_scale(weight, weight_places),
        before + at_scale(weight, weight_places),
        price_places,
        weight_places,
        one_scale,
    ) by {
        assert(adds_exactly(totals.1, weight, weight_places));
        assert(multiplies_exactly(price, weight, price_places, weight_places));
        assert(adds_exactly(
            totals.0,
            weighted->0,
            price_places + weight_places,
        ));
    }
    added
}

impl View for PriceMixer {
    type V = Seq<Provider>;

    closed spec fn view(&self) -> Seq<Provider> {
        self.providers@
    }
}

impl PriceMixer {
    #[verifier::type_invariant]
    spec fn well_formed(self) -> bool {
        distinct_exchanges(self.providers@)
    }

    /// A mixer of these exchanges.
    pub fn new(providers: Vec<Provider>) -> (mixer: PriceMixer)
        requires
            distinct_exchanges(providers@),
        ensures
            mixer@ == providers@,
    {
        PriceMixer { providers }
    }

    /// The exchanges whose prices are mixed.
    pub fn providers(&self) -> (providers: &Vec<Provider>)
        ensures
            providers@ == self@,
            distinct_exchanges(providers@),
    {
        proof {
            use_type_invariant(self);
        }
        &self.providers
    }

    /// Mixes the answers of the exchanges, one for each, in their order. There is no mix where a
    /// number on the way is out of range, or the sum of the weights is rounded to zero.
    pub fn mix(&self, answers: &Vec<PriceAnswer>) -> (mixed: Option<PriceAnswer>)
        requires
            self@.len() > 0,
            answers@.len() == self@.len(),
            !weights_cancel(answers@, weights_of(self@)),
        ensures
            is_mix(mixed, answers@, weights_of(self@)),
    {
        let ghost weights = weights_of(self@);
        let mut totals: Option<(Decimal, Decimal)> = Some((Decimal::zero(), Decimal::zero()));
        let mut errors: usize = 0;
        let mut last_error: Option<ExchangePriceCacheError> = None;
        let mut i: usize = 0;
        while i < answers.len()
            invariant
                i <= answers@.len(),
                answers@.len() == self@.len(),
                weights == weights_of(self@),
                totals == weighted_totals(answers@, weights, i as nat),
                errors <= i,
                i == 0 ==> last_error is None,
                errors == i <==> none_answered(answers@.take(i as int)),
                errors == i && i > 0 ==> last_error == Some(answers@[i - 1]->Err_0),
                well_in_range(answers@, weights) ==> totals is Some,
                totals matches Some(t) ==> has_sums_up_to_rounding(
                    t,
                    answers@,
                    weights,
                    i as nat,
                ),
                forall|price_places: nat, weight_places: nat| #[trigger]
                    sums_are_exact(answers@, weights, price_places, weight_places) ==> {
                        &&& totals is Some
                        &&& has_sums(
                            totals->0,
                            answered_price(
                                answers@,
                                weights,
                                price_places,
                                weight_places,
                                i as nat,
                            ),
                            answered_weight(answers@, weights, weight_places, i as nat),
                            price_places,
                            weight_places,
                            at_one_scale(answers@, weights, price_places, weight_places),
                        )
                    },
            decreases answers@.len() - i,
        {
            let ghost before = totals;
            proof {
                if well_in_range(answers@, weights) && answers@[i as int] is Ok {
                    lemma_next_in_range(totals->0, answers@, weights, i as nat);
                }
            }
            assert(answers@.take(i + 1).drop_last() =~= answers@.take(i as int));
            assert(answers@.take(i + 1).last() == answers@[i as int]);
            match answers[i] {
                Err(err) => {
                    last_error = Some(err);
                    errors = errors + 1;
                },
                Ok(price) => {
                    totals = match totals {
                        Some(totals) => add_price(totals, price, self.providers[i].weight),
                        None => None,
                    };
                },
            }
            proof {
                if let (Some(old_totals), Some(new_totals)) = (before, totals) {
                    lemma_one_more_exchange(
                        old_totals,
                        new_totals,
                        answers@,
                        weights,
                        i as nat,
                    );
                }
            }
            assert forall|price_places: nat, weight_places: nat| #[trigger]
                sums_are_exact(answers@, weights, price_places, weight_places) implies {
                &&& totals is Some
                &&& has_sums(
                    totals->0,
                    answered_price(answers@, weights, price_places, weight_places, (i + 1) as nat),
                    answered_weight(answers@, weights, weight_places, (i + 1) as nat),
                    price_places,
                    weight_places,
                    at_one_scale(answers@, weights, price_places, weight_places),
                )
            } by {
                let sum = answered_price(answers@, weights, price_places, weight_places, i as nat);
                assert(fits(sum));
                assert(has_sums(
                    before->0,
                    sum,
                    answered_weight(answers@, weights, weight_places, i as nat),
                    price_places,
                    weight_places,
                    at_one_scale(answers@, weights, price_places, weight_places),
                ));
                assert(fits(
                    answered_price(answers@, weights, price_places, weight_places, (i + 1) as nat),
                ));
            }
            i = i + 1;
        }
        assert(answers@.take(i as int) =~= answers@);
        let mixed = if errors == answers.len() {
            match last_error {
                Some(err) => Some(Err(err)),
                None => None,
            }
        } else {
            match totals {
                Some((total, weight_total)) => match checked_div(total, weight_total) {
                    Some(mean) => Some(Ok(mean)),
                    None => None,
                },
                None => None,
            }
        };
        proof {
            assert forall|price_places: nat, weight_places: nat| #[trigger]
                sums_are_exact(answers@, weights, price_places, weight_places) && !none_answered(
                    answers@,
                ) implies is_weighted_mean(
                mixed,
                answered_price(answers@, weights, price_places, weight_places, answers@.len()),
                answered_weight(answers@, weights, weight_places, answers@.len()),
                price_places,
                at_one_scale(answers@, weights, price_places, weight_places),
            ) by {
                let total = answered_price(
                    answers@,
                    weights,
                    price_places,
                    weight_places,
                    answers@.len(),
                );
                let weight = answered_weight(answers@, weights, weight_places, answers@.len());
                lemma_ratio_of_totals(
                    totals->0,
                    total,
                    weight,
                    price_places,
                    weight_places,
                    at_one_scale(answers@, weights, price_places, weight_places),
                );
                lemma_exact_sums_do_not_cancel(answers@, weights, price_places, weight_places);
                lemma_rounded_equal_ratios(
                    mixed->0->Ok_0,
                    quotient_numerator((totals->0).0, (totals->0).1),
                    quotient_denominator((totals->0).0, (totals->0).1),
                    total,
                    weight * ten_to(price_places),
                );
            }
            if well_in_range(answers@, weights) {
                lemma_quotient_in_range(totals->0, answers@, weights);
                lemma_weight_needs_answer(answers@, weights, answers@.len());
            }
            if let Some(Ok(mean)) = mixed {
                lemma_sizes(answers@, weights, answers@.len());
                lemma_rounded_mean(
                    answers@.len() as int,
                    units(mean),
                    units((totals->0).0) * UNITS,
                    answered_price(answers@, weights, 28, 28, answers@.len()),
                    price_size(answers@, weights, answers@.len()),
                    units((totals->0).1),
                    answered_weight(answers@, weights, 28, answers@.len()),
                    weight_size(answers@, weights, answers@.len()),
                );
            }
            assert forall|price: Decimal, places: nat| #[trigger]
                agree_on(answers@, weights, price, places) implies {
                &&& mixed matches Some(Ok(mean))
                &&& price.digits() != 0 ==> mean == price
                &&& price.digits() == 0 ==> mean.digits() == 0
            } by {
                lemma_agreement_is_exact(answers@, weights, price, places);
                let w = answered_weight(answers@, weights, places, answers@.len());
                let p = price.digits();
                assert((p * w) % w == 0 && (p * w) / w == p && (p * w == 0 <==> p == 0))
                    by (nonlinear_arith)
                    requires
                        w > 0,
                ;
                if p != 0 {
                    lemma_decimal_equal(mixed->0->Ok_0, price);
                }
            }
        }
        mixed
    }

    /// Whether exchanges have a market, but their weights, added up, are zero. A mix divides by
    /// that sum.
    pub fn lacks_weight<P>(&self, latest: &Vec<Result<P, ExchangePriceCacheError>>) -> (lacks: bool)
        requires
            latest@.len() == self@.len(),
        ensures
            lacks == (!none_answered(latest@) && (weight_sum(
                latest@,
                weights_of(self@),
                latest@.len(),
            ) matches Some(sum) && sum.digits() == 0)),
            !lacks ==> !weights_cancel(latest@, weights_of(self@)),
            lacks ==> PRECISION * size(
                answered_weight(latest@, weights_of(self@), 28, latest@.len()),
            ) <= 2 * (latest@.len() * weight_size(latest@, weights_of(self@), latest@.len())),
            forall|places: nat| #[trigger]
                weights_add_exactly(latest@, weights_of(self@), places) && !none_answered(latest@)
                    ==> lacks == (answered_weight(
                    latest@,
                    weights_of(self@),
                    places,
                    latest@.len(),
                ) == 0),
    {
        let ghost weights = weights_of(self@);
        let mut answered: bool = false;
        let mut sum: Option<Decimal> = Some(Decimal::zero());
        let mut i: usize = 0;
        while i < latest.len()
            invariant
                i <= latest@.len(),
                latest@.len() == self@.len(),
                weights == weights_of(self@),
                answered == !none_answered(latest@.take(i as int)),
                sum == weight_sum(latest@, weights, i as nat),
                sum matches Some(total) ==> PRECISION * size(
                    units(total) - answered_weight(latest@, weights, 28, i as nat),
                ) <= 2 * (i * weight_size(latest@, weights, i as nat)),
                forall|places: nat| #[trigger]
                    weights_add_exactly(latest@, weights, places) ==> {
                        &&& sum matches Some(total)
                        &&& total.places() <= places
                        &&& at_scale(total, places) == answered_weight(
                            latest@,
                            weights,
                            places,
                            i as nat,
                        )
                    },
            decreases latest@.len() - i,
        {
            let ghost before = sum;
            assert(latest@.take(i + 1).drop_last() =~= latest@.take(i as int));
            assert(latest@.take(i + 1).last() == latest@[i as int]);
            if latest[i].is_ok() {
                assert(!(latest@.take(i + 1)[i as int] is Err));
                answered = true;
                sum = match sum {
                    Some(sum) => sum_of(sum, self.providers[i].weight),
                    None => None,
                };
            }
            proof {
                let exact = answered_weight(latest@, weights, 28, i as nat);
                let sizes = weight_size(latest@, weights, i as nat);
                lemma_weight_size(latest@, weights, i as nat);
                if let (Some(old_sum), Some(new_sum)) = (before, sum) {
                    if latest@[i as int] is Ok {
                        lemma_rounded_weight(
                            i as int,
                            units(old_sum),
                            exact,
                            sizes,
                            units(weights[i as int]),
                            units(new_sum),
                        );
                    } else {
                        lemma_rounding_stays(i as int, sizes);
                    }
                }
            }
            assert forall|places: nat| #[trigger]
                weights_add_exactly(latest@, weights, places) implies {
                &&& sum matches Some(total)
                &&& total.places() <= places
                &&& at_scale(total, places) == answered_weight(
                    latest@,
                    weights,
                    places,
                    (i + 1) as nat,
                )
            } by {
                assert(fits(answered_weight(latest@, weights, places, i as nat)));
                assert(fits(answered_weight(latest@, weights, places, (i + 1) as nat)));
                if latest@[i as int] is Ok {
                    assert(adds_exactly(before->0, weights[i as int], places));
                }
            }
            i = i + 1;
        }
        assert(latest@.take(i as int) =~= latest@);
        let lacks = match sum {
            Some(sum) => answered && sum.mantissa() == 0,
            None => false,
        };
        proof {
            if let Some(total) = sum {
                if total.digits() == 0 {
                    let zeros = ten_to((28 - total.places()) as nat) as int;
                    assert(0 * zeros == 0);
                    assert(units(total) == 0);
                }
            }
            assert forall|places: nat| #[trigger]
                weights_add_exactly(latest@, weights, places) && !none_answered(
                    latest@,
                ) implies lacks == (answered_weight(latest@, weights, places, latest@.len()) == 0) by {
                lemma_rescale(sum->0, places, places);
            }
            if weights_cancel(latest@, weights) {
                let places = choose|places: nat| #[trigger]
                    weights_add_exactly(latest@, weights, places);
                lemma_weight_rescaled(
                    latest@,
                    weights,
                    places,
                    MAX_SCALE as nat,
                    latest@.len(),
                );
                lemma_rescale(sum->0, places, places);
            }
        }
        lacks
    }

    /// Mixes what `f` makes of the latest market of each exchange, in the order of the exchanges.
    pub fn apply<P, F: Fn(&P) -> Decimal>(
        &self,
        latest: &Vec<Result<P, ExchangePriceCacheError>>,
        f: F,
    ) -> (mixed: Option<PriceAnswer>)
        requires
            self@.len() > 0,
            latest@.len() == self@.len(),
            !weights_cancel(latest@, weights_of(self@)),
            forall|i: int|
                0 <= i < latest@.len() && (#[trigger] latest@[i]) is Ok ==> call_requires(
                    f,
                    (&latest@[i]->Ok_0,),
                ),
        ensures
            exists|answers: Seq<PriceAnswer>|
                answers_with(latest@, |p: P, price: Decimal| call_ensures(f, (&p,), price), answers)
                    && #[trigger] is_mix(mixed, answers, weights_of(self@)),
    {
        let mut answers: Vec<PriceAnswer> = Vec::new();
        let mut i: usize = 0;
        while i < latest.len()
            invariant
                i <= latest@.len(),
                answers@.len() == i,
                forall|k: int|
                    0 <= k < latest@.len() && (#[trigger] latest@[k]) is Ok ==> call_requires(
                        f,
                        (&latest@[k]->Ok_0,),
                    ),
                forall|k: int|
                    0 <= k < i ==> match (latest@[k], #[trigger] answers@[k]) {
                        (Ok(p), Ok(price)) => call_ensures(f, (&p,), price),
                        (Err(reason), Err(given)) => reason == given,
                        _ => false,
                    },
            decreases latest@.len() - i,
        {
            match &latest[i] {
                Ok(side_picker) => {
                    assert(latest@[i as int] is Ok);
                    let price = f(side_picker);
                    answers.push(Ok(price));
                },
                Err(err) => {
                    answers.push(Err(*err));
                },
            }
            i = i + 1;
        }
        assert(answers_with(
            latest@,
            |p: P, price: Decimal| call_ensures(f, (&p,), price),
            answers@,
        ));
        proof {
            lemma_weights_of_same_exchanges(latest@, answers@, weights_of(self@));
        }
        self.mix(&answers)
    }
}

/// Whether `answers` are made from the latest markets: a price that `quotes` allows where there
/// is one, and the same reason where there is none.
pub open spec fn answers_with<P>(
    latest: Seq<Result<P, ExchangePriceCacheError>>,
    quotes: spec_fn(P, Decimal) -> bool,
    answers: Seq<PriceAnswer>,
) -> bool {
    &&& answers.len() == latest.len()
    &&& forall|i: int|
        0 <= i < latest.len() ==> match (latest[i], #[trigger] answers[i]) {
            (Ok(p), Ok(price)) => quotes(p, price),
            (Err(reason), Err(given)) => reason == given,
            _ => false,
        }
}

} // verus!
