//! Quotes for buying and selling US dollars, and what starts and watches the service.

use vstd::prelude::*;

use crate::currency::{Sats, UsdCents, VolumePicker};
use crate::decimal::{ceil_digits, floor_digits, law_rounding_bounds, ten_to, Decimal};
use crate::price_mixer::{
    answers_with, distinct_exchanges, is_mix, mixed_price, none_answered, weights_cancel,
    weights_of, ExchangePriceCacheError, PriceAnswer, PriceMixer, Provider, SidePicker,
};

verus! {

/// How long a price stays usable, in seconds.
pub const EXCHANGE_CACHE_STALE_AFTER: i64 = 30;

/// Within how many seconds a healthy subscription has received a message.
pub const HEALTHY_WITHIN: i64 = 20;

/// Why there is no quote.
#[derive(Debug, Clone, Copy, PartialEq, Eq, Structural)]
pub enum PriceAppError {
    /// No exchange has a price.
    ExchangePriceCacheError(ExchangePriceCacheError),
}

/// The fees of the service, on what is settled at once and on what is settled later.
pub trait FeeCalculator {
    /// What is left of an amount after the fee for immediate settlement.
    fn decrease_by_immediate_fee(&self, amount: Decimal) -> Decimal;

    /// What an amount becomes with the fee for immediate settlement.
    fn increase_by_immediate_fee(&self, amount: Decimal) -> Decimal;

    /// What is left of an amount after the fee for delayed settlement.
    fn decrease_by_delayed_fee(&self, amount: Decimal) -> Decimal;

    /// What an amount becomes with the fee for delayed settlement.
    fn increase_by_delayed_fee(&self, amount: Decimal) -> Decimal;
}

/// The service that quotes prices.
pub struct PriceApp<F: FeeCalculator> {
    price_mixer: PriceMixer,
    fee_calculator: F,
}

/// Whether the buy side of a market may convert `sats` to `cents`.
pub open spec fn buy_side_gives_cents<P: SidePicker>(
    market: P,
    sats: Sats,
    cents: Decimal,
) -> bool {
    exists|side: P::Volume, converted: UsdCents|
        #![trigger call_ensures(
            <P::Volume as VolumePicker>::cents_from_sats,
            (&side, sats),
            converted,
        )]
        call_ensures(P::buy_usd, (&market,), side) && call_ensures(
            <P::Volume as VolumePicker>::cents_from_sats,
            (&side, sats),
            converted,
        ) && converted@ == cents
}

/// Whether the buy side of a market may convert `cents` to `sats`.
pub open spec fn buy_side_gives_sats<P: SidePicker>(
    market: P,
    cents: UsdCents,
    sats: Decimal,
) -> bool {
    exists|side: P::Volume, converted: Sats|
        #![trigger call_ensures(
            <P::Volume as VolumePicker>::sats_from_cents,
            (&side, cents),
            converted,
        )]
        call_ensures(P::buy_usd, (&market,), side) && call_ensures(
            <P::Volume as VolumePicker>::sats_from_cents,
            (&side, cents),
            converted,
        ) && converted@ == sats
}

/// Whether the sell side of a market may convert `sats` to `cents`.
pub open spec fn sell_side_gives_cents<P: SidePicker>(
    market: P,
    sats: Sats,
    cents: Decimal,
) -> bool {
    exists|side: P::Volume, converted: UsdCents|
        #![trigger call_ensures(
            <P::Volume as VolumePicker>::cents_from_sats,
            (&side, sats),
            converted,
        )]
        call_ensures(P::sell_usd, (&market,), side) && call_ensures(
            <P::Volume as VolumePicker>::cents_from_sats,
            (&side, sats),
            converted,
        ) && converted@ == cents
}

/// Whether the sell side of a market may convert `cents` to `sats`.
pub open spec fn sell_side_gives_sats<P: SidePicker>(
    market: P,
    cents: UsdCents,
    sats: Decimal,
) -> bool {
    exists|side: P::Volume, converted: Sats|
        #![trigger call_ensures(
            <P::Volume as VolumePicker>::sats_from_cents,
            (&side, cents),
            converted,
        )]
        call_ensures(P::sell_usd, (&market,), side) && call_ensures(
            <P::Volume as VolumePicker>::sats_from_cents,
            (&side, cents),
            converted,
        ) && converted@ == sats
}

/// Whether a market may give `cents` as the price of one satoshi between its sides.
pub open spec fn mid_price_is<P: SidePicker>(market: P, cents: Decimal) -> bool {
    exists|price: UsdCents| #[trigger]
        call_ensures(P::mid_price_of_one_sat, (&market,), price) && price@ == cents
}

/// Which fee changes an amount, and in which direction. A decreased amount is rounded down, and
/// an increased one up.
#[derive(Debug, Clone, Copy, PartialEq, Eq, Structural)]
pub enum Charge {
    ImmediateDecrease,
    ImmediateIncrease,
    DelayedDecrease,
    DelayedIncrease,
}

/// Whether the fees may change `amount` to `charged`.
pub open spec fn may_charge<F: FeeCalculator>(
    fees: F,
    charge: Charge,
    amount: Decimal,
    charged: Decimal,
) -> bool {
    match charge {
        Charge::ImmediateDecrease => call_ensures(
            F::decrease_by_immediate_fee,
            (&fees, amount),
            charged,
        ),
        Charge::ImmediateIncrease => call_ensures(
            F::increase_by_immediate_fee,
            (&fees, amount),
            charged,
        ),
        Charge::DelayedDecrease => call_ensures(
            F::decrease_by_delayed_fee,
            (&fees, amount),
            charged,
        ),
        Charge::DelayedIncrease => call_ensures(
            F::increase_by_delayed_fee,
            (&fees, amount),
            charged,
        ),
    }
}

/// The whole number that an amount is rounded to after a fee.
pub open spec fn rounded_after(charge: Charge, charged: Decimal) -> int {
    match charge {
        Charge::ImmediateDecrease | Charge::DelayedDecrease => floor_digits(charged),
        Charge::ImmediateIncrease | Charge::DelayedIncrease => ceil_digits(charged),
    }
}

/// Whether `amount` is a whole number that `mean` becomes: with the fee, and rounded.
pub open spec fn is_settled<F: FeeCalculator>(
    mean: Decimal,
    amount: Decimal,
    fees: F,
    charge: Charge,
) -> bool {
    &&& amount.places() == 0
    &&& exists|charged: Decimal| #[trigger]
        may_charge(fees, charge, mean, charged) && amount.digits() == rounded_after(charge, charged)
}

/// Whether `quoted` is the mixed price of the latest markets, in which `prices` says what a
/// market may give, with the fee, and rounded to a whole number. Where the mix fails, so does the
/// quote, and where there is no mix, there is no quote.
pub open spec fn is_quote<P, F: FeeCalculator>(
    quoted: Option<Result<Decimal, PriceAppError>>,
    latest: Seq<Result<P, ExchangePriceCacheError>>,
    weights: Seq<Decimal>,
    prices: spec_fn(P, Decimal) -> bool,
    fees: F,
    charge: Charge,
) -> bool {
    exists|answers: Seq<PriceAnswer>|
        answers_with(latest, prices, answers) && is_mix(
            mixed_price(answers, weights),
            answers,
            weights,
        ) && match #[trigger] mixed_price(answers, weights) {
            None => quoted is None,
            Some(Err(reason)) => quoted == Some(
                Result::<Decimal, PriceAppError>::Err(
                    PriceAppError::ExchangePriceCacheError(reason),
                ),
            ),
            Some(Ok(mean)) => quoted matches Some(Ok(amount)) && is_settled(
                mean,
                amount,
                fees,
                charge,
            ),
        }
}

/// What a quote is made of, and that there is none only where there is no mix.
pub(crate) proof fn lemma_quote_parts<P, F: FeeCalculator>(
    quoted: Option<Result<Decimal, PriceAppError>>,
    latest: Seq<Result<P, ExchangePriceCacheError>>,
    weights: Seq<Decimal>,
    prices: spec_fn(P, Decimal) -> bool,
    fees: F,
    charge: Charge,
)
    requires
        is_quote(quoted, latest, weights, prices, fees, charge),
    ensures
        quoted is None ==> exists|answers: Seq<PriceAnswer>|
            answers_with(latest, prices, answers) && #[trigger] is_mix(None, answers, weights),
        quoted matches Some(Ok(amount)) ==> amount.places() == 0 && exists|
            answers: Seq<PriceAnswer>,
            mean: Decimal,
            charged: Decimal,
        |
            #![trigger
                is_mix(Some(PriceAnswer::Ok(mean)), answers, weights),
                may_charge(fees, charge, mean, charged)
            ]
            answers_with(latest, prices, answers) && is_mix(
                Some(PriceAnswer::Ok(mean)),
                answers,
                weights,
            ) && may_charge(fees, charge, mean, charged) && match charge {
                Charge::ImmediateDecrease | Charge::DelayedDecrease => amount.digits() * ten_to(
                    charged.places(),
                ) <= charged.digits() < (amount.digits() + 1) * ten_to(charged.places()),
                Charge::ImmediateIncrease | Charge::DelayedIncrease => (amount.digits() - 1)
                    * ten_to(charged.places()) < charged.digits() <= amount.digits() * ten_to(
                    charged.places(),
                ),
            },
{
    let answers = choose|answers: Seq<PriceAnswer>|
        answers_with(latest, prices, answers) && is_mix(
            mixed_price(answers, weights),
            answers,
            weights,
        ) && match #[trigger] mixed_price(answers, weights) {
            None => quoted is None,
            Some(Err(reason)) => quoted == Some(
                Result::<Decimal, PriceAppError>::Err(
                    PriceAppError::ExchangePriceCacheError(reason),
                ),
            ),
            Some(Ok(mean)) => quoted matches Some(Ok(amount)) && is_settled(
                mean,
                amount,
                fees,
                charge,
            ),
        };
    if quoted is None {
        assert(is_mix(None, answers, weights));
    }
    if let Some(Ok(amount)) = quoted {
        let mean = mixed_price(answers, weights)->0->Ok_0;
        let charged = choose|charged: Decimal| #[trigger]
            may_charge(fees, charge, mean, charged) && amount.digits() == rounded_after(
                charge,
                charged,
            );
        law_rounding_bounds(charged);
        assert(is_mix(Some(PriceAnswer::Ok(mean)), answers, weights));
        assert(may_charge(fees, charge, mean, charged));
    }
}

/// The number of cents of a quote.
pub open spec fn cents_of(quoted: Option<Result<UsdCents, PriceAppError>>) -> Option<
    Result<Decimal, PriceAppError>,
> {
    match quoted {
        None => None,
        Some(Err(err)) => Some(Err(err)),
        Some(Ok(amount)) => Some(Ok(amount@)),
    }
}

/// The number of satoshis of a quote.
pub open spec fn sats_of(quoted: Option<Result<Sats, PriceAppError>>) -> Option<
    Result<Decimal, PriceAppError>,
> {
    match quoted {
        None => None,
        Some(Err(err)) => Some(Err(err)),
        Some(Ok(amount)) => Some(Ok(amount@)),
    }
}

/// A quote of a number of cents.
fn in_cents(quoted: Option<Result<Decimal, PriceAppError>>) -> (amount: Option<
    Result<UsdCents, PriceAppError>,
>)
    ensures
        cents_of(amount) == quoted,
{
    match quoted {
        None => None,
        Some(Err(err)) => Some(Err(err)),
        Some(Ok(number)) => Some(Ok(UsdCents::from_decimal(number))),
    }
}

/// A quote of a number of satoshis.
fn in_sats(quoted: Option<Result<Decimal, PriceAppError>>) -> (amount: Option<
    Result<Sats, PriceAppError>,
>)
    ensures
        sats_of(amount) == quoted,
{
    match quoted {
        None => None,
        Some(Err(err)) => Some(Err(err)),
        Some(Ok(number)) => Some(Ok(Sats::from_decimal(number))),
    }
}

impl<F: FeeCalculator> PriceApp<F> {
    /// The mixer behind the quotes.
    pub closed spec fn mixer(&self) -> PriceMixer {
        self.price_mixer
    }

    /// The fees on the quotes.
    pub closed spec fn fees(&self) -> F {
        self.fee_calculator
    }

    /// A service with these exchanges and fees.
    pub fn new(price_mixer: PriceMixer, fee_calculator: F) -> (app: PriceApp<F>)
        ensures
            app.mixer() == price_mixer,
            app.fees() == fee_calculator,
    {
        PriceApp { price_mixer, fee_calculator }
    }

    /// The exchanges behind the quotes.
    pub fn price_mixer(&self) -> (mixer: &PriceMixer)
        ensures
            *mixer == self.mixer(),
    {
        &self.price_mixer
    }

    /// The fees on the quotes.
    pub fn fee_calculator(&self) -> (fees: &F)
        ensures
            *fees == self.fees(),
    {
        &self.fee_calculator
    }

    /// Mixes what `f` makes of the latest markets, which `prices` describes.
    fn mix_with<P, G: Fn(&P) -> Decimal>(
        &self,
        latest: &Vec<Result<P, ExchangePriceCacheError>>,
        f: G,
        Ghost(prices): Ghost<spec_fn(P, Decimal) -> bool>,
    ) -> (mixed: Option<PriceAnswer>)
        requires
            self.mixer()@.len() > 0,
            latest@.len() == self.mixer()@.len(),
            !weights_cancel(latest@, weights_of(self.mixer()@)),
            forall|p: &P| #[trigger] call_requires(f, (p,)),
            forall|p: &P, price: Decimal| #[trigger]
                call_ensures(f, (p,), price) ==> prices(*p, price),
        ensures
            exists|answers: Seq<PriceAnswer>|
                answers_with(latest@, prices, answers) && #[trigger] is_mix(
                    mixed,
                    answers,
                    weights_of(self.mixer()@),
                ),
    {
        let mixed = self.price_mixer.apply(latest, f);
        proof {
            let made = |p: P, price: Decimal| call_ensures(f, (&p,), price);
            let answers = choose|answers: Seq<PriceAnswer>|
                answers_with(latest@, made, answers) && #[trigger] is_mix(
                    mixed,
                    answers,
                    weights_of(self.mixer()@),
                );
            assert(answers_with(latest@, prices, answers)) by {
                assert forall|i: int| 0 <= i < latest@.len() implies match (
                    latest@[i],
                    #[trigger] answers[i],
                ) {
                    (Ok(p), Ok(price)) => prices(p, price),
                    (Err(reason), Err(given)) => reason == given,
                    _ => false,
                } by {
                    if let (Ok(p), Ok(price)) = (latest@[i], answers[i]) {
                        assert(made(p, price));
                        assert(call_ensures(f, (&p,), price));
                    }
                }
            }
        }
        mixed
    }

    /// Takes the fee off an amount or puts it on, and rounds the outcome to a whole number.
    fn settle(&self, charge: Charge, mean: Decimal) -> (amount: Decimal)
        ensures
            is_settled(mean, amount, self.fees(), charge),
    {
        let fees = &self.fee_calculator;
        let charged = match charge {
            Charge::ImmediateDecrease => fees.decrease_by_immediate_fee(mean),
            Charge::ImmediateIncrease => fees.increase_by_immediate_fee(mean),
            Charge::DelayedDecrease => fees.decrease_by_delayed_fee(mean),
            Charge::DelayedIncrease => fees.increase_by_delayed_fee(mean),
        };
        assert(may_charge(self.fees(), charge, mean, charged));
        match charge {
            Charge::ImmediateDecrease | Charge::DelayedDecrease => charged.floor(),
            Charge::ImmediateIncrease | Charge::DelayedIncrease => charged.ceil(),
        }
    }

    /// Quotes what `f` makes of the latest markets, mixed and settled.
    fn quote<P, G: Fn(&P) -> Decimal>(
        &self,
        latest: &Vec<Result<P, ExchangePriceCacheError>>,
        f: G,
        charge: Charge,
        Ghost(prices): Ghost<spec_fn(P, Decimal) -> bool>,
    ) -> (quoted: Option<Result<Decimal, PriceAppError>>)
        requires
            self.mixer()@.len() > 0,
            latest@.len() == self.mixer()@.len(),
            !weights_cancel(latest@, weights_of(self.mixer()@)),
            forall|p: &P| #[trigger] call_requires(f, (p,)),
            forall|p: &P, price: Decimal| #[trigger]
                call_ensures(f, (p,), price) ==> prices(*p, price),
        ensures
            is_quote(quoted, latest@, weights_of(self.mixer()@), prices, self.fees(), charge),
    {
        match self.mix_with(latest, f, Ghost(prices)) {
            None => None,
            Some(Err(err)) => Some(Err(PriceAppError::ExchangePriceCacheError(err))),
            Some(Ok(mean)) => Some(Ok(self.settle(charge, mean))),
        }
    }

    /// How many cents stand against `sats` when dollars are bought and settled at once: the mixed
    /// price, decreased by the immediate fee and rounded down.
    pub fn get_cents_from_sats_for_immediate_buy<P: SidePicker>(
        &self,
        latest: &Vec<Result<P, ExchangePriceCacheError>>,
        sats: Sats,
    ) -> (quoted: Option<Result<UsdCents, PriceAppError>>)
        requires
            self.mixer()@.len() > 0,
            latest@.len() == self.mixer()@.len(),
            !weights_cancel(latest@, weights_of(self.mixer()@)),
        ensures
            is_quote(
                cents_of(quoted),
                latest@,
                weights_of(self.mixer()@),
                |p: P, price: Decimal| buy_side_gives_cents(p, sats, price),
                self.fees(),
                Charge::ImmediateDecrease,
            ),
            quoted matches Some(Ok(amount)) ==> amount@.places() == 0 && exists|
                mean: Decimal,
                charged: Decimal,
            | #[trigger]
                call_ensures(F::decrease_by_immediate_fee, (&self.fees(), mean), charged)
                    && amount@.digits() * ten_to(charged.places()) <= charged.digits()
                    < (amount@.digits() + 1) * ten_to(
                    charged.places(),
                ),
    {
        let ghost prices = |p: P, price: Decimal| buy_side_gives_cents(p, sats, price);
        let f = |p: &P| -> (price: Decimal)
            ensures
                buy_side_gives_cents(*p, sats, price),
            { *p.buy_usd().cents_from_sats(sats).amount() };
        let quoted = self.quote(latest, f, Charge::ImmediateDecrease, Ghost(prices));
        proof {
            lemma_quote_parts(
                quoted,
                latest@,
                weights_of(self.mixer()@),
                prices,
                self.fees(),
                Charge::ImmediateDecrease,
            );
        }
        in_cents(quoted)
    }

    /// How many cents stand against `sats` when dollars are sold and settled at once: the mixed
    /// price, increased by the immediate fee and rounded up.
    pub fn get_cents_from_sats_for_immediate_sell<P: SidePicker>(
        &self,
        latest: &Vec<Result<P, ExchangePriceCacheError>>,
        sats: Sats,
    ) -> (quoted: Option<Result<UsdCents, PriceAppError>>)
        requires
            self.mixer()@.len() > 0,
            latest@.len() == self.mixer()@.len(),
            !weights_cancel(latest@, weights_of(self.mixer()@)),
        ensures
            is_quote(
                cents_of(quoted),
                latest@,
                weights_of(self.mixer()@),
                |p: P, price: Decimal| sell_side_gives_cents(p, sats, price),
                self.fees(),
                Charge::ImmediateIncrease,
            ),
            quoted matches Some(Ok(amount)) ==> amount@.places() == 0 && exists|
                mean: Decimal,
                charged: Decimal,
            | #[trigger]
                call_ensures(F::increase_by_immediate_fee, (&self.fees(), mean), charged)
                    && (amount@.digits() - 1) * ten_to(charged.places()) < charged.digits()
                    <= amount@.digits() * ten_to(
                    charged.places(),
                ),
    {
        let ghost prices = |p: P, price: Decimal| sell_side_gives_cents(p, sats, price);
        let f = |p: &P| -> (price: Decimal)
            ensures
                sell_side_gives_cents(*p, sats, price),
            { *p.sell_usd().cents_from_sats(sats).amount() };
        let quoted = self.quote(latest, f, Charge::ImmediateIncrease, Ghost(prices));
        proof {
            lemma_quote_parts(
                quoted,
                latest@,
                weights_of(self.mixer()@),
                prices,
                self.fees(),
                Charge::ImmediateIncrease,
            );
        }
        in_cents(quoted)
    }

    /// How many cents stand against `sats` when dollars are bought and settled later: the mixed
    /// price, decreased by the delayed fee and rounded down.
    pub fn get_cents_from_sats_for_future_buy<P: SidePicker>(
        &self,
        latest: &Vec<Result<P, ExchangePriceCacheError>>,
        sats: Sats,
    ) -> (quoted: Option<Result<UsdCents, PriceAppError>>)
        requires
            self.mixer()@.len() > 0,
            latest@.len() == self.mixer()@.len(),
            !weights_cancel(latest@, weights_of(self.mixer()@)),
        ensures
            is_quote(
                cents_of(quoted),
                latest@,
                weights_of(self.mixer()@),
                |p: P, price: Decimal| buy_side_gives_cents(p, sats, price),
                self.fees(),
                Charge::DelayedDecrease,
            ),
            quoted matches Some(Ok(amount)) ==> amount@.places() == 0 && exists|
                mean: Decimal,
                charged: Decimal,
            | #[trigger]
                call_ensures(F::decrease_by_delayed_fee, (&self.fees(), mean), charged)
                    && amount@.digits() * ten_to(charged.places()) <= charged.digits()
                    < (amount@.digits() + 1) * ten_to(
                    charged.places(),
                ),
    {
        let ghost prices = |p: P, price: Decimal| buy_side_gives_cents(p, sats, price);
        let f = |p: &P| -> (price: Decimal)
            ensures
                buy_side_gives_cents(*p, sats, price),
            { *p.buy_usd().cents_from_sats(sats).amount() };
        let quoted = self.quote(latest, f, Charge::DelayedDecrease, Ghost(prices));
        proof {
            lemma_quote_parts(
                quoted,
                latest@,
                weights_of(self.mixer()@),
                prices,
                self.fees(),
                Charge::DelayedDecrease,
            );
        }
        in_cents(quoted)
    }

    /// How many cents stand against `sats` when dollars are sold and settled later: the mixed
    /// price, increased by the delayed fee and rounded up.
    pub fn get_cents_from_sats_for_future_sell<P: SidePicker>(
        &self,
        latest: &Vec<Result<P, ExchangePriceCacheError>>,
        sats: Sats,
    ) -> (quoted: Option<Result<UsdCents, PriceAppError>>)
        requires
            self.mixer()@.len() > 0,
            latest@.len() == self.mixer()@.len(),
            !weights_cancel(latest@, weights_of(self.mixer()@)),
        ensures
            is_quote(
                cents_of(quoted),
                latest@,
                weights_of(self.mixer()@),
                |p: P, price: Decimal| sell_side_gives_cents(p, sats, price),
                self.fees(),
                Charge::DelayedIncrease,
            ),
            quoted matches Some(Ok(amount)) ==> amount@.places() == 0 && exists|
                mean: Decimal,
                charged: Decimal,
            | #[trigger]
                call_ensures(F::increase_by_delayed_fee, (&self.fees(), mean), charged)
                    && (amount@.digits() - 1) * ten_to(charged.places()) < charged.digits()
                    <= amount@.digits() * ten_to(
                    charged.places(),
                ),
    {
        let ghost prices = |p: P, price: Decimal| sell_side_gives_cents(p, sats, price);
        let f = |p: &P| -> (price: Decimal)
            ensures
                sell_side_gives_cents(*p, sats, price),
            { *p.sell_usd().cents_from_sats(sats).amount() };
        let quoted = self.quote(latest, f, Charge::DelayedIncrease, Ghost(prices));
        proof {
            lemma_quote_parts(
                quoted,
                latest@,
                weights_of(self.mixer()@),
                prices,
                self.fees(),
                Charge::DelayedIncrease,
            );
        }
        in_cents(quoted)
    }

    /// How many satoshis stand against `cents` when dollars are bought and settled at once: the
    /// mixed price, increased by the immediate fee and rounded up.
    pub fn get_sats_from_cents_for_immediate_buy<P: SidePicker>(
        &self,
        latest: &Vec<Result<P, ExchangePriceCacheError>>,
        cents: UsdCents,
    ) -> (quoted: Option<Result<Sats, PriceAppError>>)
        requires
            self.mixer()@.len() > 0,
            latest@.len() == self.mixer()@.len(),
            !weights_cancel(latest@, weights_of(self.mixer()@)),
        ensures
            is_quote(
                sats_of(quoted),
                latest@,
                weights_of(self.mixer()@),
                |p: P, price: Decimal| buy_side_gives_sats(p, cents, price),
                self.fees(),
                Charge::ImmediateIncrease,
            ),
            quoted matches Some(Ok(amount)) ==> amount@.places() == 0 && exists|
                mean: Decimal,
                charged: Decimal,
            | #[trigger]
                call_ensures(F::increase_by_immediate_fee, (&self.fees(), mean), charged)
                    && (amount@.digits() - 1) * ten_to(charged.places()) < charged.digits()
                    <= amount@.digits() * ten_to(
                    charged.places(),
                ),
    {
        let ghost prices = |p: P, price: Decimal| buy_side_gives_sats(p, cents, price);
        let f = |p: &P| -> (price: Decimal)
            ensures
                buy_side_gives_sats(*p, cents, price),
            { *p.buy_usd().sats_from_cents(cents).amount() };
        let quoted = self.quote(latest, f, Charge::ImmediateIncrease, Ghost(prices));
        proof {
            lemma_quote_parts(
                quoted,
                latest@,
                weights_of(self.mixer()@),
                prices,
                self.fees(),
                Charge::ImmediateIncrease,
            );
        }
        in_sats(quoted)
    }

    /// How many satoshis stand against `cents` when dollars are sold and settled at once: the mixed
    /// price, decreased by the immediate fee and rounded down.
    pub fn get_sats_from_cents_for_immediate_sell<P: SidePicker>(
        &self,
        latest: &Vec<Result<P, ExchangePriceCacheError>>,
        cents: UsdCents,
    ) -> (quoted: Option<Result<Sats, PriceAppError>>)
        requires
            self.mixer()@.len() > 0,
            latest@.len() == self.mixer()@.len(),
            !weights_cancel(latest@, weights_of(self.mixer()@)),
        ensures
            is_quote(
                sats_of(quoted),
                latest@,
                weights_of(self.mixer()@),
                |p: P, price: Decimal| sell_side_gives_sats(p, cents, price),
                self.fees(),
                Charge::ImmediateDecrease,
            ),
            quoted matches Some(Ok(amount)) ==> amount@.places() == 0 && exists|
                mean: Decimal,
                charged: Decimal,
            | #[trigger]
                call_ensures(F::decrease_by_immediate_fee, (&self.fees(), mean), charged)
                    && amount@.digits() * ten_to(charged.places()) <= charged.digits()
                    < (amount@.digits() + 1) * ten_to(
                    charged.places(),
                ),
    {
        let ghost prices = |p: P, price: Decimal| sell_side_gives_sats(p, cents, price);
        let f = |p: &P| -> (price: Decimal)
            ensures
                sell_side_gives_sats(*p, cents, price),
            { *p.sell_usd().sats_from_cents(cents).amount() };
        let quoted = self.quote(latest, f, Charge::ImmediateDecrease, Ghost(prices));
        proof {
            lemma_quote_parts(
                quoted,
                latest@,
                weights_of(self.mixer()@),
                prices,
                self.fees(),
                Charge::ImmediateDecrease,
            );
        }
        in_sats(quoted)
    }

    /// How many satoshis stand against `cents` when dollars are bought and settled later: the mixed
    /// price, increased by the delayed fee and rounded up.
    pub fn get_sats_from_cents_for_future_buy<P: SidePicker>(
        &self,
        latest: &Vec<Result<P, ExchangePriceCacheError>>,
        cents: UsdCents,
    ) -> (quoted: Option<Result<Sats, PriceAppError>>)
        requires
            self.mixer()@.len() > 0,
            latest@.len() == self.mixer()@.len(),
            !weights_cancel(latest@, weights_of(self.mixer()@)),
        ensures
            is_quote(
                sats_of(quoted),
                latest@,
                weights_of(self.mixer()@),
                |p: P, price: Decimal| buy_side_gives_sats(p, cents, price),
                self.fees(),
                Charge::DelayedIncrease,
            ),
            quoted matches Some(Ok(amount)) ==> amount@.places() == 0 && exists|
                mean: Decimal,
                charged: Decimal,
            | #[trigger]
                call_ensures(F::increase_by_delayed_fee, (&self.fees(), mean), charged)
                    && (amount@.digits() - 1) * ten_to(charged.places()) < charged.digits()
                    <= amount@.digits() * ten_to(
                    charged.places(),
                ),
    {
        let ghost prices = |p: P, price: Decimal| buy_side_gives_sats(p, cents, price);
        let f = |p: &P| -> (price: Decimal)
            ensures
                buy_side_gives_sats(*p, cents, price),
            { *p.buy_usd().sats_from_cents(cents).amount() };
        let quoted = self.quote(latest, f, Charge::DelayedIncrease, Ghost(prices));
        proof {
            lemma_quote_parts(
                quoted,
                latest@,
                weights_of(self.mixer()@),
                prices,
                self.fees(),
                Charge::DelayedIncrease,
            );
        }
        in_sats(quoted)
    }

    /// How many satoshis stand against `cents` when dollars are sold and settled later: the mixed
    /// price, decreased by the delayed fee and rounded down.
    pub fn get_sats_from_cents_for_future_sell<P: SidePicker>(
        &self,
        latest: &Vec<Result<P, ExchangePriceCacheError>>,
        cents: UsdCents,
    ) -> (quoted: Option<Result<Sats, PriceAppError>>)
        requires
            self.mixer()@.len() > 0,
            latest@.len() == self.mixer()@.len(),
            !weights_cancel(latest@, weights_of(self.mixer()@)),
        ensures
            is_quote(
                sats_of(quoted),
                latest@,
                weights_of(self.mixer()@),
                |p: P, price: Decimal| sell_side_gives_sats(p, cents, price),
                self.fees(),
                Charge::DelayedDecrease,
            ),
            quoted matches Some(Ok(amount)) ==> amount@.places() == 0 && exists|
                mean: Decimal,
                charged: Decimal,
            | #[trigger]
                call_ensures(F::decrease_by_delayed_fee, (&self.fees(), mean), charged)
                    && amount@.digits() * ten_to(charged.places()) <= charged.digits()
                    < (amount@.digits() + 1) * ten_to(
                    charged.places(),
                ),
    {
        let ghost prices = |p: P, price: Decimal| sell_side_gives_sats(p, cents, price);
        let f = |p: &P| -> (price: Decimal)
            ensures
                sell_side_gives_sats(*p, cents, price),
            { *p.sell_usd().sats_from_cents(cents).amount() };
        let quoted = self.quote(latest, f, Charge::DelayedDecrease, Ghost(prices));
        proof {
            lemma_quote_parts(
                quoted,
                latest@,
                weights_of(self.mixer()@),
                prices,
                self.fees(),
                Charge::DelayedDecrease,
            );
        }
        in_sats(quoted)
    }

    /// The mixed price of one satoshi in cents, between the sides of the markets.
    pub fn get_cents_per_sat_exchange_mid_rate<P: SidePicker>(
        &self,
        latest: &Vec<Result<P, ExchangePriceCacheError>>,
    ) -> (rate: Option<Result<Sats, PriceAppError>>)
        requires
            self.mixer()@.len() > 0,
            latest@.len() == self.mixer()@.len(),
            !weights_cancel(latest@, weights_of(self.mixer()@)),
        ensures
            exists|answers: Seq<PriceAnswer>|
                answers_with(latest@, |p: P, price: Decimal| mid_price_is(p, price), answers)
                    && is_mix(
                    mixed_price(answers, weights_of(self.mixer()@)),
                    answers,
                    weights_of(self.mixer()@),
                ) && match #[trigger] mixed_price(answers, weights_of(self.mixer()@)) {
                    None => rate is None,
                    Some(Err(reason)) => rate == Some(
                        Result::<Sats, PriceAppError>::Err(
                            PriceAppError::ExchangePriceCacheError(reason),
                        ),
                    ),
                    Some(Ok(mean)) => rate matches Some(Ok(found)) && found@ == mean,
                },
    {
        let f = |p: &P| -> (price: Decimal)
            ensures
                mid_price_is(*p, price),
            {
                let price = p.mid_price_of_one_sat();
                *price.amount()
            };
        let ghost prices = |p: P, price: Decimal| mid_price_is(p, price);
        match self.mix_with(latest, f, Ghost(prices)) {
            None => None,
            Some(Err(err)) => Some(Err(PriceAppError::ExchangePriceCacheError(err))),
            Some(Ok(mean)) => Some(Ok(Sats::from_decimal(mean))),
        }
    }
}

/// A quote fails if and only if no exchange has a market, and then with the reason of the last
/// one.
pub proof fn law_quote_fails_only_without_market<P, F: FeeCalculator>(
    quoted: Option<Result<Decimal, PriceAppError>>,
    latest: Seq<Result<P, ExchangePriceCacheError>>,
    weights: Seq<Decimal>,
    prices: spec_fn(P, Decimal) -> bool,
    fees: F,
    charge: Charge,
)
    requires
        latest.len() > 0,
        is_quote(quoted, latest, weights, prices, fees, charge),
    ensures
        quoted matches Some(Err(_)) <==> forall|i: int|
            0 <= i < latest.len() ==> (#[trigger] latest[i]) is Err,
        quoted matches Some(Err(err)) ==> err == PriceAppError::ExchangePriceCacheError(
            latest.last()->Err_0,
        ),
{
    let answers = choose|answers: Seq<PriceAnswer>|
        answers_with(latest, prices, answers) && match #[trigger] mixed_price(answers, weights) {
            None => quoted is None,
            Some(Err(reason)) => quoted == Some(
                Result::<Decimal, PriceAppError>::Err(
                    PriceAppError::ExchangePriceCacheError(reason),
                ),
            ),
            Some(Ok(mean)) => quoted matches Some(Ok(amount)) && is_settled(
                mean,
                amount,
                fees,
                charge,
            ),
        };
    assert forall|i: int| 0 <= i < latest.len() implies ((#[trigger] latest[i]) is Err
        <==> answers[i] is Err) by {
        assert(answers[i] is Err || answers[i] is Ok);
    }
    if forall|i: int| 0 <= i < latest.len() ==> (#[trigger] latest[i]) is Err {
        assert forall|i: int| 0 <= i < answers.len() implies (#[trigger] answers[i]) is Err by {
            assert(latest[i] is Err);
        }
        assert(none_answered(answers));
    } else {
        let i = choose|i: int| 0 <= i < latest.len() && !((#[trigger] latest[i]) is Err);
        assert(answers[i] is Ok);
        assert(!none_answered(answers));
    }
    assert(answers[latest.len() - 1] is Err <==> latest[latest.len() - 1] is Err);
}

/// An exchange whose prices can be mixed.
#[derive(Debug, Clone, Copy, PartialEq, Eq, Structural)]
pub enum Exchange {
    Kollider,
    Okex,
}

/// The name of an exchange.
pub open spec fn exchange_name(exchange: Exchange) -> Seq<char> {
    match exchange {
        Exchange::Kollider => "kollider"@,
        Exchange::Okex => "okex"@,
    }
}

impl Exchange {
    /// The name of the exchange.
    pub fn id(&self) -> (name: &'static str)
        ensures
            name@ == exchange_name(*self),
    {
        match self {
            Exchange::Kollider => "kollider",
            Exchange::Okex => "okex",
        }
    }
}

/// How an exchange takes part.
#[derive(Debug, Clone, Copy)]
pub struct ExchangeConfig {
    pub weight: Decimal,
}

/// Which exchanges take part.
#[derive(Debug, Clone, Copy)]
pub struct ExchangeConfigAll {
    pub kollider: Option<ExchangeConfig>,
    pub okex: Option<ExchangeConfig>,
}

/// The exchanges that take part, with their weights, in the order in which they are started.
pub open spec fn configured(cfg: ExchangeConfigAll) -> Seq<(Exchange, Decimal)> {
    let kollider = match cfg.kollider {
        Some(config) => seq![(Exchange::Kollider, config.weight)],
        None => seq![],
    };
    match cfg.okex {
        Some(config) => kollider.push((Exchange::Okex, config.weight)),
        None => kollider,
    }
}

/// What the service does next while it starts.
#[derive(Debug, Clone, Copy, PartialEq, Eq, Structural)]
pub enum StartupAction {
    /// Subscribe to the prices of this exchange.
    Subscribe(Exchange),
    /// Nothing more: the service can be finished.
    Finish,
}

/// The service while it starts.
pub struct Startup<F: FeeCalculator> {
    fee_calculator: F,
    exchanges: Vec<(Exchange, Decimal)>,
    subscribed: usize,
}

/// Whether no exchange occurs twice.
spec fn each_once(exchanges: Seq<(Exchange, Decimal)>) -> bool {
    forall|i: int, j: int|
        0 <= i < j < exchanges.len() ==> (#[trigger] exchanges[i]).0 != (#[trigger] exchanges[j]).0
}

impl<F: FeeCalculator> PriceApp<F> {
    /// Begins to start the service with these exchanges and fees.
    pub fn run(fee_calculator: F, exchanges_cfg: ExchangeConfigAll) -> (startup: Startup<F>)
        ensures
            startup.fees() == fee_calculator,
            startup.exchanges() == configured(exchanges_cfg),
            startup.subscribed() == 0,
    {
        let mut exchanges: Vec<(Exchange, Decimal)> = Vec::new();
        if let Some(config) = exchanges_cfg.kollider {
            exchanges.push((Exchange::Kollider, config.weight));
        }
        if let Some(config) = exchanges_cfg.okex {
            exchanges.push((Exchange::Okex, config.weight));
        }
        assert(exchanges@ =~= configured(exchanges_cfg));
        Startup { fee_calculator, exchanges, subscribed: 0 }
    }
}

impl<F: FeeCalculator> Startup<F> {
    #[verifier::type_invariant]
    spec fn well_formed(self) -> bool {
        &&& self.subscribed <= self.exchanges@.len()
        &&& each_once(self.exchanges@)
    }

    /// The fees of the service.
    pub closed spec fn fees(&self) -> F {
        self.fee_calculator
    }

    /// The exchanges of the service with their weights.
    pub closed spec fn exchanges(&self) -> Seq<(Exchange, Decimal)> {
        self.exchanges@
    }

    /// To how many of the exchanges the service has subscribed.
    pub closed spec fn subscribed(&self) -> nat {
        self.subscribed as nat
    }

    /// What to do next: subscribe to one exchange after the other, then finish.
    pub fn action(&self) -> (action: StartupAction)
        ensures
            self.subscribed() <= self.exchanges().len(),
            action == if self.subscribed() < self.exchanges().len() {
                StartupAction::Subscribe(self.exchanges()[self.subscribed() as int].0)
            } else {
                StartupAction::Finish
            },
    {
        proof {
            use_type_invariant(self);
        }
        if self.subscribed < self.exchanges.len() {
            StartupAction::Subscribe(self.exchanges[self.subscribed].0)
        } else {
            StartupAction::Finish
        }
    }

    /// Goes on after the attempt to subscribe to the next exchange. Where it failed, so does the
    /// start.
    pub fn on_subscribed<E>(self, outcome: Result<(), E>) -> (next: Result<Startup<F>, E>)
        requires
            self.subscribed() < self.exchanges().len(),
        ensures
            match outcome {
                Ok(_) => {
                    &&& next matches Ok(startup)
                    &&& startup.fees() == self.fees()
                    &&& startup.exchanges() == self.exchanges()
                    &&& startup.subscribed() == self.subscribed() + 1
                },
                Err(err) => next == Result::<Startup<F>, E>::Err(err),
            },
    {
        proof {
            use_type_invariant(&self);
        }
        let total: usize = self.exchanges.len();
        assert(self.subscribed < total);
        match outcome {
            Ok(_) => Ok(
                Startup {
                    fee_calculator: self.fee_calculator,
                    exchanges: self.exchanges,
                    subscribed: self.subscribed + 1,
                },
            ),
            Err(err) => Err(err),
        }
    }

    /// The service, once it has subscribed to all exchanges, and the exchanges whose
    /// subscriptions its health depends on: Kollider, where it takes part.
    pub fn finish(self) -> (started: (PriceApp<F>, Vec<Exchange>))
        requires
            self.subscribed() == self.exchanges().len(),
        ensures
            started.0.fees() == self.fees(),
            started.0.mixer()@.len() == self.exchanges().len(),
            forall|i: int|
                0 <= i < self.exchanges().len() ==> {
                    &&& (#[trigger] started.0.mixer()@[i]).exchange@ == exchange_name(
                        self.exchanges()[i].0,
                    )
                    &&& started.0.mixer()@[i].weight == self.exchanges()[i].1
                },
            started.1@ == watched(self.exchanges()),
    {
        proof {
            use_type_invariant(&self);
            reveal_strlit("kollider");
            reveal_strlit("okex");
        }
        let mut providers: Vec<Provider> = Vec::new();
        let mut subscribers: Vec<Exchange> = Vec::new();
        let mut i: usize = 0;
        while i < self.exchanges.len()
            invariant
                i <= self.exchanges@.len(),
                "kollider"@.len() == 8,
                "okex"@.len() == 4,
                each_once(self.exchanges@),
                providers@.len() == i,
                forall|k: int|
                    0 <= k < i ==> {
                        &&& (#[trigger] providers@[k]).exchange@ == exchange_name(
                            self.exchanges@[k].0,
                        )
                        &&& providers@[k].weight == self.exchanges@[k].1
                    },
                distinct_exchanges(providers@),
                subscribers@ == watched(self.exchanges@.take(i as int)),
            decreases self.exchanges@.len() - i,
        {
            let (exchange, weight) = self.exchanges[i];
            proof {
                let taken = self.exchanges@.take(i + 1);
                assert(taken.drop_last() =~= self.exchanges@.take(i as int));
                assert(taken.last() == self.exchanges@[i as int]);
                assert forall|k: int| 0 <= k < i implies (#[trigger] providers@[k]).exchange@
                    != exchange_name(exchange) by {
                    assert(self.exchanges@[k].0 != self.exchanges@[i as int].0);
                }
            }
            providers.push(Provider { exchange: exchange.id().to_owned(), weight });
            if exchange == Exchange::Kollider {
                subscribers.push(exchange);
            }
            i = i + 1;
        }
        assert(self.exchanges@.take(i as int) =~= self.exchanges@);
        (PriceApp::new(PriceMixer::new(providers), self.fee_calculator), subscribers)
    }
}

/// The exchanges whose subscriptions are watched, in their order: Kollider alone.
pub open spec fn watched(exchanges: Seq<(Exchange, Decimal)>) -> Seq<Exchange>
    decreases exchanges.len(),
{
    if exchanges.len() == 0 {
        seq![]
    } else if exchanges.last().0 == Exchange::Kollider {
        watched(exchanges.drop_last()).push(Exchange::Kollider)
    } else {
        watched(exchanges.drop_last())
    }
}

/// The health of the service after that of its subscriptions: it is unhealthy only where all of
/// them are, and there is one, and then for the reason of the first.
pub fn check_health<E>(results: Vec<Result<(), E>>) -> (health: Result<(), E>)
    ensures
        health is Err <==> {
            &&& results@.len() > 0
            &&& forall|i: int| 0 <= i < results@.len() ==> (#[trigger] results@[i]) is Err
        },
        health is Err ==> health == results@[0],
{
    let mut i: usize = 0;
    while i < results.len()
        invariant
            i <= results@.len(),
            forall|k: int| 0 <= k < i ==> (#[trigger] results@[k]) is Err,
        decreases results@.len() - i,
    {
        if results[i].is_ok() {
            assert(!(results@[i as int] is Err));
            return Ok(());
        }
        i = i + 1;
    }
    if results.len() == 0 {
        return Ok(());
    }
    let mut results = results;
    results.remove(0)
}

} // verus!
