//! What quotes are made of.

use vstd::prelude::*;

use crate::currency::{Sats, UsdCents, VolumePicker};
use crate::decimal::{ten_to, Decimal};
use crate::price_app::{
    buy_side_gives_cents, buy_side_gives_sats, cents_of, is_quote, lemma_quote_parts,
    law_quote_fails_only_without_market, may_charge, mid_price_is, sats_of, sell_side_gives_cents,
    sell_side_gives_sats, Charge, FeeCalculator, PriceApp, PriceAppError,
};
use crate::price_mixer::{
    answers_with, is_mix, mixed_price, none_answered, weights_of, ExchangePriceCacheError,
    PriceAnswer, SidePicker,
};

verus! {

/// The cents for dollars that are bought, with immediate settlement: the largest whole number that
/// is not above what `decrease_by_immediate_fee` returned for the mix of what the buy sides of the
/// markets return for `sats`. The quote fails if and only if no exchange has a market, for the
/// reason of the last one, and there is none only where there is no mix.
pub proof fn law_cents_for_immediate_buy<F: FeeCalculator, P: SidePicker>(
    app: PriceApp<F>,
    latest: Vec<Result<P, ExchangePriceCacheError>>,
    sats: Sats,
    quoted: Option<Result<UsdCents, PriceAppError>>,
)
    requires
        latest@.len() > 0,
        call_ensures(
            PriceApp::<F>::get_cents_from_sats_for_immediate_buy::<P>,
            (&app, &latest, sats),
            quoted,
        ),
    ensures
        quoted matches Some(Ok(amount)) ==> amount@.places() == 0 && exists|
            answers: Seq<PriceAnswer>,
            mean: Decimal,
            charged: Decimal,
        |
            #![trigger
                is_mix(Some(PriceAnswer::Ok(mean)), answers, weights_of(app.mixer()@)),
                call_ensures(F::decrease_by_immediate_fee, (&app.fees(), mean), charged)
            ]
            {
                &&& answers.len() == latest@.len()
                &&& forall|i: int|
                    0 <= i < latest@.len() ==> match (latest@[i], #[trigger] answers[i]) {
                        (Ok(market), Ok(price)) => exists|side: P::Volume, converted: UsdCents|
                            #![trigger
                                call_ensures(
                                    <P::Volume as VolumePicker>::cents_from_sats,
                                    (&side, sats),
                                    converted,
                                )
                            ]
                            call_ensures(P::buy_usd, (&market,), side) && call_ensures(
                                <P::Volume as VolumePicker>::cents_from_sats,
                                (&side, sats),
                                converted,
                            ) && converted@ == price,
                        (Err(reason), Err(given)) => reason == given,
                        _ => false,
                    }
                &&& is_mix(Some(PriceAnswer::Ok(mean)), answers, weights_of(app.mixer()@))
                &&& call_ensures(F::decrease_by_immediate_fee, (&app.fees(), mean), charged)
                &&& amount@.digits() * ten_to(charged.places()) <= charged.digits()
                    < (amount@.digits() + 1) * ten_to(
                    charged.places(),
                )
            },
        (forall|i: int| 0 <= i < latest@.len() ==> (#[trigger] latest@[i]) is Err) ==> quoted
            == Some(
            Result::<UsdCents, PriceAppError>::Err(
                PriceAppError::ExchangePriceCacheError(latest@[latest@.len() - 1]->Err_0),
            ),
        ),
        (exists|i: int| 0 <= i < latest@.len() && (#[trigger] latest@[i]) is Ok) ==> !(
        quoted matches Some(Err(_))),
        quoted is None ==> exists|answers: Seq<PriceAnswer>| {
            &&& answers.len() == latest@.len()
            &&& forall|i: int|
                0 <= i < latest@.len() ==> match (latest@[i], #[trigger] answers[i]) {
                    (Ok(market), Ok(price)) => exists|side: P::Volume, converted: UsdCents|
                        #![trigger
                            call_ensures(
                                <P::Volume as VolumePicker>::cents_from_sats,
                                (&side, sats),
                                converted,
                            )
                        ]
                        call_ensures(P::buy_usd, (&market,), side) && call_ensures(
                            <P::Volume as VolumePicker>::cents_from_sats,
                            (&side, sats),
                            converted,
                        ) && converted@ == price,
                    (Err(reason), Err(given)) => reason == given,
                    _ => false,
                }
            &&& #[trigger] is_mix(None, answers, weights_of(app.mixer()@))
        },
{
    let prices = |p: P, price: Decimal| buy_side_gives_cents(p, sats, price);
    let weights = weights_of(app.mixer()@);
    assert(is_quote(cents_of(quoted), latest@, weights, prices, app.fees(), Charge::ImmediateDecrease));
    lemma_quote_parts(cents_of(quoted), latest@, weights, prices, app.fees(), Charge::ImmediateDecrease);
    law_quote_fails_only_without_market(
        cents_of(quoted),
        latest@,
        weights,
        prices,
        app.fees(),
        Charge::ImmediateDecrease,
    );
    if quoted is None {
        let answers = choose|answers: Seq<PriceAnswer>|
            answers_with(latest@, prices, answers) && #[trigger] is_mix(None, answers, weights);
        assert forall|i: int| 0 <= i < latest@.len() implies match (
            latest@[i],
            #[trigger] answers[i],
        ) {
            (Ok(market), Ok(price)) => buy_side_gives_cents(market, sats, price),
            (Err(reason), Err(given)) => reason == given,
            _ => false,
        } by {
            if let (Ok(market), Ok(price)) = (latest@[i], answers[i]) {
                assert(prices(market, price));
            }
        }
        assert(is_mix(None, answers, weights));
    }
    if quoted matches Some(Ok(_)) {
        let (answers, mean, charged) = choose|
            answers: Seq<PriceAnswer>,
            mean: Decimal,
            charged: Decimal,
        |
            #![trigger
                is_mix(Some(PriceAnswer::Ok(mean)), answers, weights),
                may_charge(app.fees(), Charge::ImmediateDecrease, mean, charged)
            ]
            answers_with(latest@, prices, answers) && is_mix(
                Some(PriceAnswer::Ok(mean)),
                answers,
                weights,
            ) && may_charge(app.fees(), Charge::ImmediateDecrease, mean, charged)
                && cents_of(quoted)->0->Ok_0.digits() * ten_to(charged.places()) <= charged.digits()
                < (cents_of(quoted)->0->Ok_0.digits() + 1) * ten_to(
                charged.places(),
            );
        assert forall|i: int| 0 <= i < latest@.len() implies match (
            latest@[i],
            #[trigger] answers[i],
        ) {
            (Ok(market), Ok(price)) => buy_side_gives_cents(market, sats, price),
            (Err(reason), Err(given)) => reason == given,
            _ => false,
        } by {
            if let (Ok(market), Ok(price)) = (latest@[i], answers[i]) {
                assert(prices(market, price));
            }
        }
        assert(call_ensures(F::decrease_by_immediate_fee, (&app.fees(), mean), charged));
    }
}

/// The cents for dollars that are sold, with immediate settlement: the smallest whole number that
/// is not below what `increase_by_immediate_fee` returned for the mix of what the sell sides of the
/// markets return for `sats`. The quote fails if and only if no exchange has a market, for the
/// reason of the last one, and there is none only where there is no mix.
pub proof fn law_cents_for_immediate_sell<F: FeeCalculator, P: SidePicker>(
    app: PriceApp<F>,
    latest: Vec<Result<P, ExchangePriceCacheError>>,
    sats: Sats,
    quoted: Option<Result<UsdCents, PriceAppError>>,
)
    requires
        latest@.len() > 0,
        call_ensures(
            PriceApp::<F>::get_cents_from_sats_for_immediate_sell::<P>,
            (&app, &latest, sats),
            quoted,
        ),
    ensures
        quoted matches Some(Ok(amount)) ==> amount@.places() == 0 && exists|
            answers: Seq<PriceAnswer>,
            mean: Decimal,
            charged: Decimal,
        |
            #![trigger
                is_mix(Some(PriceAnswer::Ok(mean)), answers, weights_of(app.mixer()@)),
                call_ensures(F::increase_by_immediate_fee, (&app.fees(), mean), charged)
            ]
            {
                &&& answers.len() == latest@.len()
                &&& forall|i: int|
                    0 <= i < latest@.len() ==> match (latest@[i], #[trigger] answers[i]) {
                        (Ok(market), Ok(price)) => exists|side: P::Volume, converted: UsdCents|
                            #![trigger
                                call_ensures(
                                    <P::Volume as VolumePicker>::cents_from_sats,
                                    (&side, sats),
                                    converted,
                                )
                            ]
                            call_ensures(P::sell_usd, (&market,), side) && call_ensures(
                                <P::Volume as VolumePicker>::cents_from_sats,
                                (&side, sats),
                                converted,
                            ) && converted@ == price,
                        (Err(reason), Err(given)) => reason == given,
                        _ => false,
                    }
                &&& is_mix(Some(PriceAnswer::Ok(mean)), answers, weights_of(app.mixer()@))
                &&& call_ensures(F::increase_by_immediate_fee, (&app.fees(), mean), charged)
                &&& (amount@.digits() - 1) * ten_to(charged.places()) < charged.digits()
                    <= amount@.digits() * ten_to(
                    charged.places(),
                )
            },
        (forall|i: int| 0 <= i < latest@.len() ==> (#[trigger] latest@[i]) is Err) ==> quoted
            == Some(
            Result::<UsdCents, PriceAppError>::Err(
                PriceAppError::ExchangePriceCacheError(latest@[latest@.len() - 1]->Err_0),
            ),
        ),
        (exists|i: int| 0 <= i < latest@.len() && (#[trigger] latest@[i]) is Ok) ==> !(
        quoted matches Some(Err(_))),
        quoted is None ==> exists|answers: Seq<PriceAnswer>| {
            &&& answers.len() == latest@.len()
            &&& forall|i: int|
                0 <= i < latest@.len() ==> match (latest@[i], #[trigger] answers[i]) {
                    (Ok(market), Ok(price)) => exists|side: P::Volume, converted: UsdCents|
                        #![trigger
                            call_ensures(
                                <P::Volume as VolumePicker>::cents_from_sats,
                                (&side, sats),
                                converted,
                            )
                        ]
                        call_ensures(P::sell_usd, (&market,), side) && call_ensures(
                            <P::Volume as VolumePicker>::cents_from_sats,
                            (&side, sats),
                            converted,
                        ) && converted@ == price,
                    (Err(reason), Err(given)) => reason == given,
                    _ => false,
                }
            &&& #[trigger] is_mix(None, answers, weights_of(app.mixer()@))
        },
{
    let prices = |p: P, price: Decimal| sell_side_gives_cents(p, sats, price);
    let weights = weights_of(app.mixer()@);
    assert(is_quote(cents_of(quoted), latest@, weights, prices, app.fees(), Charge::ImmediateIncrease));
    lemma_quote_parts(cents_of(quoted), latest@, weights, prices, app.fees(), Charge::ImmediateIncrease);
    law_quote_fails_only_without_market(
        cents_of(quoted),
        latest@,
        weights,
        prices,
        app.fees(),
        Charge::ImmediateIncrease,
    );
    if quoted is None {
        let answers = choose|answers: Seq<PriceAnswer>|
            answers_with(latest@, prices, answers) && #[trigger] is_mix(None, answers, weights);
        assert forall|i: int| 0 <= i < latest@.len() implies match (
            latest@[i],
            #[trigger] answers[i],
        ) {
            (Ok(market), Ok(price)) => sell_side_gives_cents(market, sats, price),
            (Err(reason), Err(given)) => reason == given,
            _ => false,
        } by {
            if let (Ok(market), Ok(price)) = (latest@[i], answers[i]) {
                assert(prices(market, price));
            }
        }
        assert(is_mix(None, answers, weights));
    }
    if quoted matches Some(Ok(_)) {
        let (answers, mean, charged) = choose|
            answers: Seq<PriceAnswer>,
            mean: Decimal,
            charged: Decimal,
        |
            #![trigger
                is_mix(Some(PriceAnswer::Ok(mean)), answers, weights),
                may_charge(app.fees(), Charge::ImmediateIncrease, mean, charged)
            ]
            answers_with(latest@, prices, answers) && is_mix(
                Some(PriceAnswer::Ok(mean)),
                answers,
                weights,
            ) && may_charge(app.fees(), Charge::ImmediateIncrease, mean, charged)
                && (cents_of(quoted)->0->Ok_0.digits() - 1) * ten_to(charged.places())
                < charged.digits() <= cents_of(quoted)->0->Ok_0.digits() * ten_to(
                charged.places(),
            );
        assert forall|i: int| 0 <= i < latest@.len() implies match (
            latest@[i],
            #[trigger] answers[i],
        ) {
            (Ok(market), Ok(price)) => sell_side_gives_cents(market, sats, price),
            (Err(reason), Err(given)) => reason == given,
            _ => false,
        } by {
            if let (Ok(market), Ok(price)) = (latest@[i], answers[i]) {
                assert(prices(market, price));
            }
        }
        assert(call_ensures(F::increase_by_immediate_fee, (&app.fees(), mean), charged));
    }
}

/// The cents for dollars that are bought, with delayed settlement: the largest whole number that is
/// not above what `decrease_by_delayed_fee` returned for the mix of what the buy sides of the
/// markets return for `sats`. The quote fails if and only if no exchange has a market, for the
/// reason of the last one, and there is none only where there is no mix.
pub proof fn law_cents_for_future_buy<F: FeeCalculator, P: SidePicker>(
    app: PriceApp<F>,
    latest: Vec<Result<P, ExchangePriceCacheError>>,
    sats: Sats,
    quoted: Option<Result<UsdCents, PriceAppError>>,
)
    requires
        latest@.len() > 0,
        call_ensures(
            PriceApp::<F>::get_cents_from_sats_for_future_buy::<P>,
            (&app, &latest, sats),
            quoted,
        ),
    ensures
        quoted matches Some(Ok(amount)) ==> amount@.places() == 0 && exists|
            answers: Seq<PriceAnswer>,
            mean: Decimal,
            charged: Decimal,
        |
            #![trigger
                is_mix(Some(PriceAnswer::Ok(mean)), answers, weights_of(app.mixer()@)),
                call_ensures(F::decrease_by_delayed_fee, (&app.fees(), mean), charged)
            ]
            {
                &&& answers.len() == latest@.len()
                &&& forall|i: int|
                    0 <= i < latest@.len() ==> match (latest@[i], #[trigger] answers[i]) {
                        (Ok(market), Ok(price)) => exists|side: P::Volume, converted: UsdCents|
                            #![trigger
                                call_ensures(
                                    <P::Volume as VolumePicker>::cents_from_sats,
                                    (&side, sats),
                                    converted,
                                )
                            ]
                            call_ensures(P::buy_usd, (&market,), side) && call_ensures(
                                <P::Volume as VolumePicker>::cents_from_sats,
                                (&side, sats),
                                converted,
                            ) && converted@ == price,
                        (Err(reason), Err(given)) => reason == given,
                        _ => false,
                    }
                &&& is_mix(Some(PriceAnswer::Ok(mean)), answers, weights_of(app.mixer()@))
                &&& call_ensures(F::decrease_by_delayed_fee, (&app.fees(), mean), charged)
                &&& amount@.digits() * ten_to(charged.places()) <= charged.digits()
                    < (amount@.digits() + 1) * ten_to(
                    charged.places(),
                )
            },
        (forall|i: int| 0 <= i < latest@.len() ==> (#[trigger] latest@[i]) is Err) ==> quoted
            == Some(
            Result::<UsdCents, PriceAppError>::Err(
                PriceAppError::ExchangePriceCacheError(latest@[latest@.len() - 1]->Err_0),
            ),
        ),
        (exists|i: int| 0 <= i < latest@.len() && (#[trigger] latest@[i]) is Ok) ==> !(
        quoted matches Some(Err(_))),
        quoted is None ==> exists|answers: Seq<PriceAnswer>| {
            &&& answers.len() == latest@.len()
            &&& forall|i: int|
                0 <= i < latest@.len() ==> match (latest@[i], #[trigger] answers[i]) {
                    (Ok(market), Ok(price)) => exists|side: P::Volume, converted: UsdCents|
                        #![trigger
                            call_ensures(
                                <P::Volume as VolumePicker>::cents_from_sats,
                                (&side, sats),
                                converted,
                            )
                        ]
                        call_ensures(P::buy_usd, (&market,), side) && call_ensures(
                            <P::Volume as VolumePicker>::cents_from_sats,
                            (&side, sats),
                            converted,
                        ) && converted@ == price,
                    (Err(reason), Err(given)) => reason == given,
                    _ => false,
                }
            &&& #[trigger] is_mix(None, answers, weights_of(app.mixer()@))
        },
{
    let prices = |p: P, price: Decimal| buy_side_gives_cents(p, sats, price);
    let weights = weights_of(app.mixer()@);
    assert(is_quote(cents_of(quoted), latest@, weights, prices, app.fees(), Charge::DelayedDecrease));
    lemma_quote_parts(cents_of(quoted), latest@, weights, prices, app.fees(), Charge::DelayedDecrease);
    law_quote_fails_only_without_market(
        cents_of(quoted),
        latest@,
        weights,
        prices,
        app.fees(),
        Charge::DelayedDecrease,
    );
    if quoted is None {
        let answers = choose|answers: Seq<PriceAnswer>|
            answers_with(latest@, prices, answers) && #[trigger] is_mix(None, answers, weights);
        assert forall|i: int| 0 <= i < latest@.len() implies match (
            latest@[i],
            #[trigger] answers[i],
        ) {
            (Ok(market), Ok(price)) => buy_side_gives_cents(market, sats, price),
            (Err(reason), Err(given)) => reason == given,
            _ => false,
        } by {
            if let (Ok(market), Ok(price)) = (latest@[i], answers[i]) {
                assert(prices(market, price));
            }
        }
        assert(is_mix(None, answers, weights));
    }
    if quoted matches Some(Ok(_)) {
        let (answers, mean, charged) = choose|
            answers: Seq<PriceAnswer>,
            mean: Decimal,
            charged: Decimal,
        |
            #![trigger
                is_mix(Some(PriceAnswer::Ok(mean)), answers, weights),
                may_charge(app.fees(), Charge::DelayedDecrease, mean, charged)
            ]
            answers_with(latest@, prices, answers) && is_mix(
                Some(PriceAnswer::Ok(mean)),
                answers,
                weights,
            ) && may_charge(app.fees(), Charge::DelayedDecrease, mean, charged)
                && cents_of(quoted)->0->Ok_0.digits() * ten_to(charged.places()) <= charged.digits()
                < (cents_of(quoted)->0->Ok_0.digits() + 1) * ten_to(
                charged.places(),
            );
        assert forall|i: int| 0 <= i < latest@.len() implies match (
            latest@[i],
            #[trigger] answers[i],
        ) {
            (Ok(market), Ok(price)) => buy_side_gives_cents(market, sats, price),
            (Err(reason), Err(given)) => reason == given,
            _ => false,
        } by {
            if let (Ok(market), Ok(price)) = (latest@[i], answers[i]) {
                assert(prices(market, price));
            }
        }
        assert(call_ensures(F::decrease_by_delayed_fee, (&app.fees(), mean), charged));
    }
}

/// The cents for dollars that are sold, with delayed settlement: the smallest whole number that is
/// not below what `increase_by_delayed_fee` returned for the mix of what the sell sides of the
/// markets return for `sats`. The quote fails if and only if no exchange has a market, for the
/// reason of the last one, and there is none only where there is no mix.
pub proof fn law_cents_for_future_sell<F: FeeCalculator, P: SidePicker>(
    app: PriceApp<F>,
    latest: Vec<Result<P, ExchangePriceCacheError>>,
    sats: Sats,
    quoted: Option<Result<UsdCents, PriceAppError>>,
)
    requires
        latest@.len() > 0,
        call_ensures(
            PriceApp::<F>::get_cents_from_sats_for_future_sell::<P>,
            (&app, &latest, sats),
            quoted,
        ),
    ensures
        quoted matches Some(Ok(amount)) ==> amount@.places() == 0 && exists|
            answers: Seq<PriceAnswer>,
            mean: Decimal,
            charged: Decimal,
        |
            #![trigger
                is_mix(Some(PriceAnswer::Ok(mean)), answers, weights_of(app.mixer()@)),
                call_ensures(F::increase_by_delayed_fee, (&app.fees(), mean), charged)
            ]
            {
                &&& answers.len() == latest@.len()
                &&& forall|i: int|
                    0 <= i < latest@.len() ==> match (latest@[i], #[trigger] answers[i]) {
                        (Ok(market), Ok(price)) => exists|side: P::Volume, converted: UsdCents|
                            #![trigger
                                call_ensures(
                                    <P::Volume as VolumePicker>::cents_from_sats,
                                    (&side, sats),
                                    converted,
                                )
                            ]
                            call_ensures(P::sell_usd, (&market,), side) && call_ensures(
                                <P::Volume as VolumePicker>::cents_from_sats,
                                (&side, sats),
                                converted,
                            ) && converted@ == price,
                        (Err(reason), Err(given)) => reason == given,
                        _ => false,
                    }
                &&& is_mix(Some(PriceAnswer::Ok(mean)), answers, weights_of(app.mixer()@))
                &&& call_ensures(F::increase_by_delayed_fee, (&app.fees(), mean), charged)
                &&& (amount@.digits() - 1) * ten_to(charged.places()) < charged.digits()
                    <= amount@.digits() * ten_to(
                    charged.places(),
                )
            },
        (forall|i: int| 0 <= i < latest@.len() ==> (#[trigger] latest@[i]) is Err) ==> quoted
            == Some(
            Result::<UsdCents, PriceAppError>::Err(
                PriceAppError::ExchangePriceCacheError(latest@[latest@.len() - 1]->Err_0),
            ),
        ),
        (exists|i: int| 0 <= i < latest@.len() && (#[trigger] latest@[i]) is Ok) ==> !(
        quoted matches Some(Err(_))),
        quoted is None ==> exists|answers: Seq<PriceAnswer>| {
            &&& answers.len() == latest@.len()
            &&& forall|i: int|
                0 <= i < latest@.len() ==> match (latest@[i], #[trigger] answers[i]) {
                    (Ok(market), Ok(price)) => exists|side: P::Volume, converted: UsdCents|
                        #![trigger
                            call_ensures(
                                <P::Volume as VolumePicker>::cents_from_sats,
                                (&side, sats),
                                converted,
                            )
                        ]
                        call_ensures(P::sell_usd, (&market,), side) && call_ensures(
                            <P::Volume as VolumePicker>::cents_from_sats,
                            (&side, sats),
                            converted,
                        ) && converted@ == price,
                    (Err(reason), Err(given)) => reason == given,
                    _ => false,
                }
            &&& #[trigger] is_mix(None, answers, weights_of(app.mixer()@))
        },
{
    let prices = |p: P, price: Decimal| sell_side_gives_cents(p, sats, price);
    let weights = weights_of(app.mixer()@);
    assert(is_quote(cents_of(quoted), latest@, weights, prices, app.fees(), Charge::DelayedIncrease));
    lemma_quote_parts(cents_of(quoted), latest@, weights, prices, app.fees(), Charge::DelayedIncrease);
    law_quote_fails_only_without_market(
        cents_of(quoted),
        latest@,
        weights,
        prices,
        app.fees(),
        Charge::DelayedIncrease,
    );
    if quoted is None {
        let answers = choose|answers: Seq<PriceAnswer>|
            answers_with(latest@, prices, answers) && #[trigger] is_mix(None, answers, weights);
        assert forall|i: int| 0 <= i < latest@.len() implies match (
            latest@[i],
            #[trigger] answers[i],
        ) {
            (Ok(market), Ok(price)) => sell_side_gives_cents(market, sats, price),
            (Err(reason), Err(given)) => reason == given,
            _ => false,
        } by {
            if let (Ok(market), Ok(price)) = (latest@[i], answers[i]) {
                assert(prices(market, price));
            }
        }
        assert(is_mix(None, answers, weights));
    }
    if quoted matches Some(Ok(_)) {
        let (answers, mean, charged) = choose|
            answers: Seq<PriceAnswer>,
            mean: Decimal,
            charged: Decimal,
        |
            #![trigger
                is_mix(Some(PriceAnswer::Ok(mean)), answers, weights),
                may_charge(app.fees(), Charge::DelayedIncrease, mean, charged)
            ]
            answers_with(latest@, prices, answers) && is_mix(
                Some(PriceAnswer::Ok(mean)),
                answers,
                weights,
            ) && may_charge(app.fees(), Charge::DelayedIncrease, mean, charged)
                && (cents_of(quoted)->0->Ok_0.digits() - 1) * ten_to(charged.places())
                < charged.digits() <= cents_of(quoted)->0->Ok_0.digits() * ten_to(
                charged.places(),
            );
        assert forall|i: int| 0 <= i < latest@.len() implies match (
            latest@[i],
            #[trigger] answers[i],
        ) {
            (Ok(market), Ok(price)) => sell_side_gives_cents(market, sats, price),
            (Err(reason), Err(given)) => reason == given,
            _ => false,
        } by {
            if let (Ok(market), Ok(price)) = (latest@[i], answers[i]) {
                assert(prices(market, price));
            }
        }
        assert(call_ensures(F::increase_by_delayed_fee, (&app.fees(), mean), charged));
    }
}

/// The satoshis for dollars that are bought, with immediate settlement: the smallest whole number
/// that is not below what `increase_by_immediate_fee` returned for the mix of what the buy sides of
/// the markets return for `cents`. The quote fails if and only if no exchange has a market, for the
/// reason of the last one, and there is none only where there is no mix.
pub proof fn law_sats_for_immediate_buy<F: FeeCalculator, P: SidePicker>(
    app: PriceApp<F>,
    latest: Vec<Result<P, ExchangePriceCacheError>>,
    cents: UsdCents,
    quoted: Option<Result<Sats, PriceAppError>>,
)
    requires
        latest@.len() > 0,
        call_ensures(
            PriceApp::<F>::get_sats_from_cents_for_immediate_buy::<P>,
            (&app, &latest, cents),
            quoted,
        ),
    ensures
        quoted matches Some(Ok(amount)) ==> amount@.places() == 0 && exists|
            answers: Seq<PriceAnswer>,
            mean: Decimal,
            charged: Decimal,
        |
            #![trigger
                is_mix(Some(PriceAnswer::Ok(mean)), answers, weights_of(app.mixer()@)),
                call_ensures(F::increase_by_immediate_fee, (&app.fees(), mean), charged)
            ]
            {
                &&& answers.len() == latest@.len()
                &&& forall|i: int|
                    0 <= i < latest@.len() ==> match (latest@[i], #[trigger] answers[i]) {
                        (Ok(market), Ok(price)) => exists|side: P::Volume, converted: Sats|
                            #![trigger
                                call_ensures(
                                    <P::Volume as VolumePicker>::sats_from_cents,
                                    (&side, cents),
                                    converted,
                                )
                            ]
                            call_ensures(P::buy_usd, (&market,), side) && call_ensures(
                                <P::Volume as VolumePicker>::sats_from_cents,
                                (&side, cents),
                                converted,
                            ) && converted@ == price,
                        (Err(reason), Err(given)) => reason == given,
                        _ => false,
                    }
                &&& is_mix(Some(PriceAnswer::Ok(mean)), answers, weights_of(app.mixer()@))
                &&& call_ensures(F::increase_by_immediate_fee, (&app.fees(), mean), charged)
                &&& (amount@.digits() - 1) * ten_to(charged.places()) < charged.digits()
                    <= amount@.digits() * ten_to(
                    charged.places(),
                )
            },
        (forall|i: int| 0 <= i < latest@.len() ==> (#[trigger] latest@[i]) is Err) ==> quoted
            == Some(
            Result::<Sats, PriceAppError>::Err(
                PriceAppError::ExchangePriceCacheError(latest@[latest@.len() - 1]->Err_0),
            ),
        ),
        (exists|i: int| 0 <= i < latest@.len() && (#[trigger] latest@[i]) is Ok) ==> !(
        quoted matches Some(Err(_))),
        quoted is None ==> exists|answers: Seq<PriceAnswer>| {
            &&& answers.len() == latest@.len()
            &&& forall|i: int|
                0 <= i < latest@.len() ==> match (latest@[i], #[trigger] answers[i]) {
                    (Ok(market), Ok(price)) => exists|side: P::Volume, converted: Sats|
                        #![trigger
                            call_ensures(
                                <P::Volume as VolumePicker>::sats_from_cents,
                                (&side, cents),
                                converted,
                            )
                        ]
                        call_ensures(P::buy_usd, (&market,), side) && call_ensures(
                            <P::Volume as VolumePicker>::sats_from_cents,
                            (&side, cents),
                            converted,
                        ) && converted@ == price,
                    (Err(reason), Err(given)) => reason == given,
                    _ => false,
                }
            &&& #[trigger] is_mix(None, answers, weights_of(app.mixer()@))
        },
{
    let prices = |p: P, price: Decimal| buy_side_gives_sats(p, cents, price);
    let weights = weights_of(app.mixer()@);
    assert(is_quote(sats_of(quoted), latest@, weights, prices, app.fees(), Charge::ImmediateIncrease));
    lemma_quote_parts(sats_of(quoted), latest@, weights, prices, app.fees(), Charge::ImmediateIncrease);
    law_quote_fails_only_without_market(
        sats_of(quoted),
        latest@,
        weights,
        prices,
        app.fees(),
        Charge::ImmediateIncrease,
    );
    if quoted is None {
        let answers = choose|answers: Seq<PriceAnswer>|
            answers_with(latest@, prices, answers) && #[trigger] is_mix(None, answers, weights);
        assert forall|i: int| 0 <= i < latest@.len() implies match (
            latest@[i],
            #[trigger] answers[i],
        ) {
            (Ok(market), Ok(price)) => buy_side_gives_sats(market, cents, price),
            (Err(reason), Err(given)) => reason == given,
            _ => false,
        } by {
            if let (Ok(market), Ok(price)) = (latest@[i], answers[i]) {
                assert(prices(market, price));
            }
        }
        assert(is_mix(None, answers, weights));
    }
    if quoted matches Some(Ok(_)) {
        let (answers, mean, charged) = choose|
            answers: Seq<PriceAnswer>,
            mean: Decimal,
            charged: Decimal,
        |
            #![trigger
                is_mix(Some(PriceAnswer::Ok(mean)), answers, weights),
                may_charge(app.fees(), Charge::ImmediateIncrease, mean, charged)
            ]
            answers_with(latest@, prices, answers) && is_mix(
                Some(PriceAnswer::Ok(mean)),
                answers,
                weights,
            ) && may_charge(app.fees(), Charge::ImmediateIncrease, mean, charged)
                && (sats_of(quoted)->0->Ok_0.digits() - 1) * ten_to(charged.places())
                < charged.digits() <= sats_of(quoted)->0->Ok_0.digits() * ten_to(
                charged.places(),
            );
        assert forall|i: int| 0 <= i < latest@.len() implies match (
            latest@[i],
            #[trigger] answers[i],
        ) {
            (Ok(market), Ok(price)) => buy_side_gives_sats(market, cents, price),
            (Err(reason), Err(given)) => reason == given,
            _ => false,
        } by {
            if let (Ok(market), Ok(price)) = (latest@[i], answers[i]) {
                assert(prices(market, price));
            }
        }
        assert(call_ensures(F::increase_by_immediate_fee, (&app.fees(), mean), charged));
    }
}

/// The satoshis for dollars that are sold, with immediate settlement: the largest whole number that
/// is not above what `decrease_by_immediate_fee` returned for the mix of what the sell sides of the
/// markets return for `cents`. The quote fails if and only if no exchange has a market, for the
/// reason of the last one, and there is none only where there is no mix.
pub proof fn law_sats_for_immediate_sell<F: FeeCalculator, P: SidePicker>(
    app: PriceApp<F>,
    latest: Vec<Result<P, ExchangePriceCacheError>>,
    cents: UsdCents,
    quoted: Option<Result<Sats, PriceAppError>>,
)
    requires
        latest@.len() > 0,
        call_ensures(
            PriceApp::<F>::get_sats_from_cents_for_immediate_sell::<P>,
            (&app, &latest, cents),
            quoted,
        ),
    ensures
        quoted matches Some(Ok(amount)) ==> amount@.places() == 0 && exists|
            answers: Seq<PriceAnswer>,
            mean: Decimal,
            charged: Decimal,
        |
            #![trigger
                is_mix(Some(PriceAnswer::Ok(mean)), answers, weights_of(app.mixer()@)),
                call_ensures(F::decrease_by_immediate_fee, (&app.fees(), mean), charged)
            ]
            {
                &&& answers.len() == latest@.len()
                &&& forall|i: int|
                    0 <= i < latest@.len() ==> match (latest@[i], #[trigger] answers[i]) {
                        (Ok(market), Ok(price)) => exists|side: P::Volume, converted: Sats|
                            #![trigger
                                call_ensures(
                                    <P::Volume as VolumePicker>::sats_from_cents,
                                    (&side, cents),
                                    converted,
                                )
                            ]
                            call_ensures(P::sell_usd, (&market,), side) && call_ensures(
                                <P::Volume as VolumePicker>::sats_from_cents,
                                (&side, cents),
                                converted,
                            ) && converted@ == price,
                        (Err(reason), Err(given)) => reason == given,
                        _ => false,
                    }
                &&& is_mix(Some(PriceAnswer::Ok(mean)), answers, weights_of(app.mixer()@))
                &&& call_ensures(F::decrease_by_immediate_fee, (&app.fees(), mean), charged)
                &&& amount@.digits() * ten_to(charged.places()) <= charged.digits()
                    < (amount@.digits() + 1) * ten_to(
                    charged.places(),
                )
            },
        (forall|i: int| 0 <= i < latest@.len() ==> (#[trigger] latest@[i]) is Err) ==> quoted
            == Some(
            Result::<Sats, PriceAppError>::Err(
                PriceAppError::ExchangePriceCacheError(latest@[latest@.len() - 1]->Err_0),
            ),
        ),
        (exists|i: int| 0 <= i < latest@.len() && (#[trigger] latest@[i]) is Ok) ==> !(
        quoted matches Some(Err(_))),
        quoted is None ==> exists|answers: Seq<PriceAnswer>| {
            &&& answers.len() == latest@.len()
            &&& forall|i: int|
                0 <= i < latest@.len() ==> match (latest@[i], #[trigger] answers[i]) {
                    (Ok(market), Ok(price)) => exists|side: P::Volume, converted: Sats|
                        #![trigger
                            call_ensures(
                                <P::Volume as VolumePicker>::sats_from_cents,
                                (&side, cents),
                                converted,
                            )
                        ]
                        call_ensures(P::sell_usd, (&market,), side) && call_ensures(
                            <P::Volume as VolumePicker>::sats_from_cents,
                            (&side, cents),
                            converted,
                        ) && converted@ == price,
                    (Err(reason), Err(given)) => reason == given,
                    _ => false,
                }
            &&& #[trigger] is_mix(None, answers, weights_of(app.mixer()@))
        },
{
    let prices = |p: P, price: Decimal| sell_side_gives_sats(p, cents, price);
    let weights = weights_of(app.mixer()@);
    assert(is_quote(sats_of(quoted), latest@, weights, prices, app.fees(), Charge::ImmediateDecrease));
    lemma_quote_parts(sats_of(quoted), latest@, weights, prices, app.fees(), Charge::ImmediateDecrease);
    law_quote_fails_only_without_market(
        sats_of(quoted),
        latest@,
        weights,
        prices,
        app.fees(),
        Charge::ImmediateDecrease,
    );
    if quoted is None {
        let answers = choose|answers: Seq<PriceAnswer>|
            answers_with(latest@, prices, answers) && #[trigger] is_mix(None, answers, weights);
        assert forall|i: int| 0 <= i < latest@.len() implies match (
            latest@[i],
            #[trigger] answers[i],
        ) {
            (Ok(market), Ok(price)) => sell_side_gives_sats(market, cents, price),
            (Err(reason), Err(given)) => reason == given,
            _ => false,
        } by {
            if let (Ok(market), Ok(price)) = (latest@[i], answers[i]) {
                assert(prices(market, price));
            }
        }
        assert(is_mix(None, answers, weights));
    }
    if quoted matches Some(Ok(_)) {
        let (answers, mean, charged) = choose|
            answers: Seq<PriceAnswer>,
            mean: Decimal,
            charged: Decimal,
        |
            #![trigger
                is_mix(Some(PriceAnswer::Ok(mean)), answers, weights),
                may_charge(app.fees(), Charge::ImmediateDecrease, mean, charged)
            ]
            answers_with(latest@, prices, answers) && is_mix(
                Some(PriceAnswer::Ok(mean)),
                answers,
                weights,
            ) && may_charge(app.fees(), Charge::ImmediateDecrease, mean, charged)
                && sats_of(quoted)->0->Ok_0.digits() * ten_to(charged.places()) <= charged.digits()
                < (sats_of(quoted)->0->Ok_0.digits() + 1) * ten_to(
                charged.places(),
            );
        assert forall|i: int| 0 <= i < latest@.len() implies match (
            latest@[i],
            #[trigger] answers[i],
        ) {
            (Ok(market), Ok(price)) => sell_side_gives_sats(market, cents, price),
            (Err(reason), Err(given)) => reason == given,
            _ => false,
        } by {
            if let (Ok(market), Ok(price)) = (latest@[i], answers[i]) {
                assert(prices(market, price));
            }
        }
        assert(call_ensures(F::decrease_by_immediate_fee, (&app.fees(), mean), charged));
    }
}

/// The satoshis for dollars that are bought, with delayed settlement: the smallest whole number
/// that is not below what `increase_by_delayed_fee` returned for the mix of what the buy sides of
/// the markets return for `cents`. The quote fails if and only if no exchange has a market, for the
/// reason of the last one, and there is none only where there is no mix.
pub proof fn law_sats_for_future_buy<F: FeeCalculator, P: SidePicker>(
    app: PriceApp<F>,
    latest: Vec<Result<P, ExchangePriceCacheError>>,
    cents: UsdCents,
    quoted: Option<Result<Sats, PriceAppError>>,
)
    requires
        latest@.len() > 0,
        call_ensures(
            PriceApp::<F>::get_sats_from_cents_for_future_buy::<P>,
            (&app, &latest, cents),
            quoted,
        ),
    ensures
        quoted matches Some(Ok(amount)) ==> amount@.places() == 0 && exists|
            answers: Seq<PriceAnswer>,
            mean: Decimal,
            charged: Decimal,
        |
            #![trigger
                is_mix(Some(PriceAnswer::Ok(mean)), answers, weights_of(app.mixer()@)),
                call_ensures(F::increase_by_delayed_fee, (&app.fees(), mean), charged)
            ]
            {
                &&& answers.len() == latest@.len()
                &&& forall|i: int|
                    0 <= i < latest@.len() ==> match (latest@[i], #[trigger] answers[i]) {
                        (Ok(market), Ok(price)) => exists|side: P::Volume, converted: Sats|
                            #![trigger
                                call_ensures(
                                    <P::Volume as VolumePicker>::sats_from_cents,
                                    (&side, cents),
                                    converted,
                                )
                            ]
                            call_ensures(P::buy_usd, (&market,), side) && call_ensures(
                                <P::Volume as VolumePicker>::sats_from_cents,
                                (&side, cents),
                                converted,
                            ) && converted@ == price,
                        (Err(reason), Err(given)) => reason == given,
                        _ => false,
                    }
                &&& is_mix(Some(PriceAnswer::Ok(mean)), answers, weights_of(app.mixer()@))
                &&& call_ensures(F::increase_by_delayed_fee, (&app.fees(), mean), charged)
                &&& (amount@.digits() - 1) * ten_to(charged.places()) < charged.digits()
                    <= amount@.digits() * ten_to(
                    charged.places(),
                )
            },
        (forall|i: int| 0 <= i < latest@.len() ==> (#[trigger] latest@[i]) is Err) ==> quoted
            == Some(
            Result::<Sats, PriceAppError>::Err(
                PriceAppError::ExchangePriceCacheError(latest@[latest@.len() - 1]->Err_0),
            ),
        ),
        (exists|i: int| 0 <= i < latest@.len() && (#[trigger] latest@[i]) is Ok) ==> !(
        quoted matches Some(Err(_))),
        quoted is None ==> exists|answers: Seq<PriceAnswer>| {
            &&& answers.len() == latest@.len()
            &&& forall|i: int|
                0 <= i < latest@.len() ==> match (latest@[i], #[trigger] answers[i]) {
                    (Ok(market), Ok(price)) => exists|side: P::Volume, converted: Sats|
                        #![trigger
                            call_ensures(
                                <P::Volume as VolumePicker>::sats_from_cents,
                                (&side, cents),
                                converted,
                            )
                        ]
                        call_ensures(P::buy_usd, (&market,), side) && call_ensures(
                            <P::Volume as VolumePicker>::sats_from_cents,
                            (&side, cents),
                            converted,
                        ) && converted@ == price,
                    (Err(reason), Err(given)) => reason == given,
                    _ => false,
                }
            &&& #[trigger] is_mix(None, answers, weights_of(app.mixer()@))
        },
{
    let prices = |p: P, price: Decimal| buy_side_gives_sats(p, cents, price);
    let weights = weights_of(app.mixer()@);
    assert(is_quote(sats_of(quoted), latest@, weights, prices, app.fees(), Charge::DelayedIncrease));
    lemma_quote_parts(sats_of(quoted), latest@, weights, prices, app.fees(), Charge::DelayedIncrease);
    law_quote_fails_only_without_market(
        sats_of(quoted),
        latest@,
        weights,
        prices,
        app.fees(),
        Charge::DelayedIncrease,
    );
    if quoted is None {
        let answers = choose|answers: Seq<PriceAnswer>|
            answers_with(latest@, prices, answers) && #[trigger] is_mix(None, answers, weights);
        assert forall|i: int| 0 <= i < latest@.len() implies match (
            latest@[i],
            #[trigger] answers[i],
        ) {
            (Ok(market), Ok(price)) => buy_side_gives_sats(market, cents, price),
            (Err(reason), Err(given)) => reason == given,
            _ => false,
        } by {
            if let (Ok(market), Ok(price)) = (latest@[i], answers[i]) {
                assert(prices(market, price));
            }
        }
        assert(is_mix(None, answers, weights));
    }
    if quoted matches Some(Ok(_)) {
        let (answers, mean, charged) = choose|
            answers: Seq<PriceAnswer>,
            mean: Decimal,
            charged: Decimal,
        |
            #![trigger
                is_mix(Some(PriceAnswer::Ok(mean)), answers, weights),
                may_charge(app.fees(), Charge::DelayedIncrease, mean, charged)
            ]
            answers_with(latest@, prices, answers) && is_mix(
                Some(PriceAnswer::Ok(mean)),
                answers,
                weights,
            ) && may_charge(app.fees(), Charge::DelayedIncrease, mean, charged)
                && (sats_of(quoted)->0->Ok_0.digits() - 1) * ten_to(charged.places())
                < charged.digits() <= sats_of(quoted)->0->Ok_0.digits() * ten_to(
                charged.places(),
            );
        assert forall|i: int| 0 <= i < latest@.len() implies match (
            latest@[i],
            #[trigger] answers[i],
        ) {
            (Ok(market), Ok(price)) => buy_side_gives_sats(market, cents, price),
            (Err(reason), Err(given)) => reason == given,
            _ => false,
        } by {
            if let (Ok(market), Ok(price)) = (latest@[i], answers[i]) {
                assert(prices(market, price));
            }
        }
        assert(call_ensures(F::increase_by_delayed_fee, (&app.fees(), mean), charged));
    }
}

/// The satoshis for dollars that are sold, with delayed settlement: the largest whole number that
/// is not above what `decrease_by_delayed_fee` returned for the mix of what the sell sides of the
/// markets return for `cents`. The quote fails if and only if no exchange has a market, for the
/// reason of the last one, and there is none only where there is no mix.
pub proof fn law_sats_for_future_sell<F: FeeCalculator, P: SidePicker>(
    app: PriceApp<F>,
    latest: Vec<Result<P, ExchangePriceCacheError>>,
    cents: UsdCents,
    quoted: Option<Result<Sats, PriceAppError>>,
)
    requires
        latest@.len() > 0,
        call_ensures(
            PriceApp::<F>::get_sats_from_cents_for_future_sell::<P>,
            (&app, &latest, cents),
            quoted,
        ),
    ensures
        quoted matches Some(Ok(amount)) ==> amount@.places() == 0 && exists|
            answers: Seq<PriceAnswer>,
            mean: Decimal,
            charged: Decimal,
        |
            #![trigger
                is_mix(Some(PriceAnswer::Ok(mean)), answers, weights_of(app.mixer()@)),
                call_ensures(F::decrease_by_delayed_fee, (&app.fees(), mean), charged)
            ]
            {
                &&& answers.len() == latest@.len()
                &&& forall|i: int|
                    0 <= i < latest@.len() ==> match (latest@[i], #[trigger] answers[i]) {
                        (Ok(market), Ok(price)) => exists|side: P::Volume, converted: Sats|
                            #![trigger
                                call_ensures(
                                    <P::Volume as VolumePicker>::sats_from_cents,
                                    (&side, cents),
                                    converted,
                                )
                            ]
                            call_ensures(P::sell_usd, (&market,), side) && call_ensures(
                                <P::Volume as VolumePicker>::sats_from_cents,
                                (&side, cents),
                                converted,
                            ) && converted@ == price,
                        (Err(reason), Err(given)) => reason == given,
                        _ => false,
                    }
                &&& is_mix(Some(PriceAnswer::Ok(mean)), answers, weights_of(app.mixer()@))
                &&& call_ensures(F::decrease_by_delayed_fee, (&app.fees(), mean), charged)
                &&& amount@.digits() * ten_to(charged.places()) <= charged.digits()
                    < (amount@.digits() + 1) * ten_to(
                    charged.places(),
                )
            },
        (forall|i: int| 0 <= i < latest@.len() ==> (#[trigger] latest@[i]) is Err) ==> quoted
            == Some(
            Result::<Sats, PriceAppError>::Err(
                PriceAppError::ExchangePriceCacheError(latest@[latest@.len() - 1]->Err_0),
            ),
        ),
        (exists|i: int| 0 <= i < latest@.len() && (#[trigger] latest@[i]) is Ok) ==> !(
        quoted matches Some(Err(_))),
        quoted is None ==> exists|answers: Seq<PriceAnswer>| {
            &&& answers.len() == latest@.len()
            &&& forall|i: int|
                0 <= i < latest@.len() ==> match (latest@[i], #[trigger] answers[i]) {
                    (Ok(market), Ok(price)) => exists|side: P::Volume, converted: Sats|
                        #![trigger
                            call_ensures(
                                <P::Volume as VolumePicker>::sats_from_cents,
                                (&side, cents),
                                converted,
                            )
                        ]
                        call_ensures(P::sell_usd, (&market,), side) && call_ensures(
                            <P::Volume as VolumePicker>::sats_from_cents,
                            (&side, cents),
                            converted,
                        ) && converted@ == price,
                    (Err(reason), Err(given)) => reason == given,
                    _ => false,
                }
            &&& #[trigger] is_mix(None, answers, weights_of(app.mixer()@))
        },
{
    let prices = |p: P, price: Decimal| sell_side_gives_sats(p, cents, price);
    let weights = weights_of(app.mixer()@);
    assert(is_quote(sats_of(quoted), latest@, weights, prices, app.fees(), Charge::DelayedDecrease));
    lemma_quote_parts(sats_of(quoted), latest@, weights, prices, app.fees(), Charge::DelayedDecrease);
    law_quote_fails_only_without_market(
        sats_of(quoted),
        latest@,
        weights,
        prices,
        app.fees(),
        Charge::DelayedDecrease,
    );
    if quoted is None {
        let answers = choose|answers: Seq<PriceAnswer>|
            answers_with(latest@, prices, answers) && #[trigger] is_mix(None, answers, weights);
        assert forall|i: int| 0 <= i < latest@.len() implies match (
            latest@[i],
            #[trigger] answers[i],
        ) {
            (Ok(market), Ok(price)) => sell_side_gives_sats(market, cents, price),
            (Err(reason), Err(given)) => reason == given,
            _ => false,
        } by {
            if let (Ok(market), Ok(price)) = (latest@[i], answers[i]) {
                assert(prices(market, price));
            }
        }
        assert(is_mix(None, answers, weights));
    }
    if quoted matches Some(Ok(_)) {
        let (answers, mean, charged) = choose|
            answers: Seq<PriceAnswer>,
            mean: Decimal,
            charged: Decimal,
        |
            #![trigger
                is_mix(Some(PriceAnswer::Ok(mean)), answers, weights),
                may_charge(app.fees(), Charge::DelayedDecrease, mean, charged)
            ]
            answers_with(latest@, prices, answers) && is_mix(
                Some(PriceAnswer::Ok(mean)),
                answers,
                weights,
            ) && may_charge(app.fees(), Charge::DelayedDecrease, mean, charged)
                && sats_of(quoted)->0->Ok_0.digits() * ten_to(charged.places()) <= charged.digits()
                < (sats_of(quoted)->0->Ok_0.digits() + 1) * ten_to(
                charged.places(),
            );
        assert forall|i: int| 0 <= i < latest@.len() implies match (
            latest@[i],
            #[trigger] answers[i],
        ) {
            (Ok(market), Ok(price)) => sell_side_gives_sats(market, cents, price),
            (Err(reason), Err(given)) => reason == given,
            _ => false,
        } by {
            if let (Ok(market), Ok(price)) = (latest@[i], answers[i]) {
                assert(prices(market, price));
            }
        }
        assert(call_ensures(F::decrease_by_delayed_fee, (&app.fees(), mean), charged));
    }
}

/// The mid rate is the mix of the mid prices that the markets return. It fails if and only if no
/// exchange has a market, for the reason of the last one.
pub proof fn law_mid_rate<F: FeeCalculator, P: SidePicker>(
    app: PriceApp<F>,
    latest: Vec<Result<P, ExchangePriceCacheError>>,
    rate: Option<Result<Sats, PriceAppError>>,
)
    requires
        latest@.len() > 0,
        call_ensures(
            PriceApp::<F>::get_cents_per_sat_exchange_mid_rate::<P>,
            (&app, &latest),
            rate,
        ),
    ensures
        rate matches Some(Ok(found)) ==> exists|answers: Seq<PriceAnswer>| {
            &&& answers.len() == latest@.len()
            &&& forall|i: int|
                0 <= i < latest@.len() ==> match (latest@[i], #[trigger] answers[i]) {
                    (Ok(market), Ok(price)) => exists|mid: UsdCents| #[trigger]
                        call_ensures(P::mid_price_of_one_sat, (&market,), mid) && mid@ == price,
                    (Err(reason), Err(given)) => reason == given,
                    _ => false,
                }
            &&& #[trigger] is_mix(
                Some(PriceAnswer::Ok(found@)),
                answers,
                weights_of(app.mixer()@),
            )
        },
        (forall|i: int| 0 <= i < latest@.len() ==> (#[trigger] latest@[i]) is Err) ==> rate == Some(
            Result::<Sats, PriceAppError>::Err(
                PriceAppError::ExchangePriceCacheError(latest@[latest@.len() - 1]->Err_0),
            ),
        ),
        (exists|i: int| 0 <= i < latest@.len() && (#[trigger] latest@[i]) is Ok) ==> !(
        rate matches Some(Err(_))),
        rate is None ==> exists|answers: Seq<PriceAnswer>| {
            &&& answers.len() == latest@.len()
            &&& forall|i: int|
                0 <= i < latest@.len() ==> match (latest@[i], #[trigger] answers[i]) {
                    (Ok(market), Ok(price)) => exists|mid: UsdCents| #[trigger]
                        call_ensures(P::mid_price_of_one_sat, (&market,), mid) && mid@ == price,
                    (Err(reason), Err(given)) => reason == given,
                    _ => false,
                }
            &&& #[trigger] is_mix(None, answers, weights_of(app.mixer()@))
        },
{
    let weights = weights_of(app.mixer()@);
    let prices = |p: P, price: Decimal| mid_price_is(p, price);
    let answers = choose|answers: Seq<PriceAnswer>|
        answers_with(latest@, prices, answers) && is_mix(
            mixed_price(answers, weights),
            answers,
            weights,
        ) && match #[trigger] mixed_price(answers, weights) {
            None => rate is None,
            Some(Err(reason)) => rate == Some(
                Result::<Sats, PriceAppError>::Err(PriceAppError::ExchangePriceCacheError(reason)),
            ),
            Some(Ok(mean)) => rate matches Some(Ok(found)) && found@ == mean,
        };
    assert forall|i: int| 0 <= i < latest@.len() implies match (latest@[i], #[trigger] answers[i]) {
        (Ok(market), Ok(price)) => mid_price_is(market, price),
        (Err(reason), Err(given)) => reason == given,
        _ => false,
    } by {
        if let (Ok(market), Ok(price)) = (latest@[i], answers[i]) {
            assert(prices(market, price));
        }
    }
    if rate is None {
        assert(is_mix(None, answers, weights));
    }
    if let Some(Ok(found)) = rate {
        assert(is_mix(Some(PriceAnswer::Ok(found@)), answers, weights));
    }
    let last = latest@.len() - 1;
    assert(answers[last] is Err <==> latest@[last] is Err);
    if forall|i: int| 0 <= i < latest@.len() ==> (#[trigger] latest@[i]) is Err {
        assert forall|i: int| 0 <= i < answers.len() implies (#[trigger] answers[i]) is Err by {
            assert(latest@[i] is Err);
        }
        assert(none_answered(answers));
    } else {
        let i = choose|i: int| 0 <= i < latest@.len() && !((#[trigger] latest@[i]) is Err);
        assert(answers[i] is Ok);
        assert(!none_answered(answers));
    }
}

} // verus!
