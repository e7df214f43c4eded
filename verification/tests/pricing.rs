use price_server::currency::{Sats, UsdCents, VolumePicker};
use price_server::decimal::Decimal;
use price_server::price_app::{
    check_health, Exchange, ExchangeConfig, ExchangeConfigAll, FeeCalculator, PriceApp,
    PriceAppError, StartupAction, EXCHANGE_CACHE_STALE_AFTER, HEALTHY_WITHIN,
};
use price_server::price_mixer::{
    ExchangePriceCacheError, PriceMixer, Provider, SidePicker, TimeStamp,
};

const STALE: ExchangePriceCacheError =
    ExchangePriceCacheError::StalePrice(TimeStamp { secs: 1, nanos: 2 });
const MISSING: ExchangePriceCacheError = ExchangePriceCacheError::NoPriceAvailable;

fn outside(number: &Decimal) -> rust_decimal::Decimal {
    rust_decimal::Decimal::from_i128_with_scale(number.mantissa(), number.scale())
}

fn inside(number: rust_decimal::Decimal) -> Decimal {
    Decimal::new(number.mantissa(), number.scale())
}

fn parts(number: &Decimal) -> (i128, u32) {
    (number.mantissa(), number.scale())
}

/// A market with a fixed price in cents for one satoshi on each side.
struct Market {
    buy: rust_decimal::Decimal,
    sell: rust_decimal::Decimal,
}

struct Side(rust_decimal::Decimal);

impl VolumePicker for Side {
    fn cents_from_sats(&self, sats: Sats) -> UsdCents {
        UsdCents::from_decimal(inside(outside(sats.amount()) * self.0))
    }

    fn sats_from_cents(&self, cents: UsdCents) -> Sats {
        Sats::from_decimal(inside(outside(cents.amount()) / self.0))
    }
}

impl SidePicker for Market {
    type Volume = Side;

    fn buy_usd(&self) -> Side {
        Side(self.buy)
    }

    fn sell_usd(&self) -> Side {
        Side(self.sell)
    }

    fn mid_price_of_one_sat(&self) -> UsdCents {
        UsdCents::from_decimal(inside((self.buy + self.sell) / rust_decimal::Decimal::TWO))
    }
}

fn market(buy: i64, sell: i64, scale: u32) -> Market {
    Market {
        buy: rust_decimal::Decimal::new(buy, scale),
        sell: rust_decimal::Decimal::new(sell, scale),
    }
}

/// Takes one hundredth for immediate and one tenth for delayed settlement.
struct Fees;

fn times(amount: Decimal, factor: i64) -> Decimal {
    inside(outside(&amount) * rust_decimal::Decimal::new(factor, 2))
}

impl FeeCalculator for Fees {
    fn decrease_by_immediate_fee(&self, amount: Decimal) -> Decimal {
        times(amount, 99)
    }

    fn increase_by_immediate_fee(&self, amount: Decimal) -> Decimal {
        times(amount, 101)
    }

    fn decrease_by_delayed_fee(&self, amount: Decimal) -> Decimal {
        times(amount, 90)
    }

    fn increase_by_delayed_fee(&self, amount: Decimal) -> Decimal {
        times(amount, 110)
    }
}

fn mixer(weights: &[i128]) -> PriceMixer {
    PriceMixer::new(
        weights
            .iter()
            .enumerate()
            .map(|(i, weight)| Provider {
                exchange: format!("exchange {}", i),
                weight: Decimal::new(*weight, 0),
            })
            .collect(),
    )
}

fn app(weights: &[i128]) -> PriceApp<Fees> {
    PriceApp::new(mixer(weights), Fees)
}

fn sats(amount: i128) -> Sats {
    Sats::from_decimal(Decimal::new(amount, 0))
}

fn cents(amount: i128) -> UsdCents {
    UsdCents::from_decimal(Decimal::new(amount, 0))
}

#[test]
fn test_price_mixer() {
    let price_mixer = PriceMixer::new(vec![Provider {
        exchange: "okex".to_string(),
        weight: Decimal::new(1, 0),
    }]);
    // A bid of 1000000000 and an ask of 10000000000, both with an offset of 12.
    let latest = vec![Ok(Market {
        buy: rust_decimal::Decimal::new(10_000_000_000, 12),
        sell: rust_decimal::Decimal::new(1_000_000_000, 12),
    })];
    let price = price_mixer
        .apply(&latest, |p: &Market| {
            *p.sell_usd().sats_from_cents(UsdCents::from_decimal(Decimal::new(1, 0))).amount()
        })
        .expect("in range")
        .expect("Price should be available");
    assert_ne!(rust_decimal::Decimal::ZERO, outside(&price));
    assert_eq!(outside(&price), rust_decimal::Decimal::from(1000));
}

#[test]
fn mean_is_weighted() {
    let mixed = mixer(&[1, 3]).mix(&vec![Ok(Decimal::new(10, 0)), Ok(Decimal::new(20, 0))]);
    assert_eq!(outside(&mixed.unwrap().unwrap()), rust_decimal::Decimal::new(175, 1));
}

#[test]
fn mean_is_exact_where_it_can_be() {
    let mixed = mixer(&[1, 1]).mix(&vec![Ok(Decimal::new(105, 1)), Ok(Decimal::new(205, 1))]);
    assert_eq!(parts(&mixed.unwrap().unwrap()), (155, 1));
    let mixed = mixer(&[1, 2]).mix(&vec![Ok(Decimal::new(-10, 0)), Ok(Decimal::new(5, 0))]);
    assert_eq!(parts(&mixed.unwrap().unwrap()), (0, 0));
    let mixed = mixer(&[3, -1]).mix(&vec![Ok(Decimal::new(-4, 0)), Ok(Decimal::new(8, 0))]);
    assert_eq!(parts(&mixed.unwrap().unwrap()), (-10, 0));
}

fn value(mixed: Option<Result<Decimal, ExchangePriceCacheError>>) -> rust_decimal::Decimal {
    outside(&mixed.unwrap().unwrap())
}

#[test]
fn prices_and_weights_of_different_scales() {
    let mixer = PriceMixer::new(vec![
        Provider { exchange: "a".to_string(), weight: Decimal::new(1, 0) },
        Provider { exchange: "b".to_string(), weight: Decimal::new(30, 1) },
    ]);
    let mixed = mixer.mix(&vec![Ok(Decimal::new(10, 0)), Ok(Decimal::new(2000, 2))]);
    assert_eq!(value(mixed), rust_decimal::Decimal::new(175, 1));
    let mixed = mixer.mix(&vec![Ok(Decimal::new(0, 0)), Ok(Decimal::new(1, 9))]);
    assert_eq!(value(mixed), rust_decimal::Decimal::new(75, 11));
}

#[test]
fn only_proportions_of_weights_count() {
    let answers = vec![Ok(Decimal::new(105, 1)), Err(STALE), Ok(Decimal::new(2, 0))];
    let expected = rust_decimal::Decimal::new(37, 1);
    for weights in [[1, 9, 4], [5, 1, 20], [-1, 0, -4], [250, 2, 1000]] {
        assert_eq!(value(mixer(&weights).mix(&answers)), expected);
    }
}

#[test]
fn mean_lies_within_the_prices() {
    let prices = [Decimal::new(1, 28), Decimal::new(3, 0), Decimal::new(7_000_001, 6)];
    for weights in [[1, 1, 1], [0, 0, 7], [3, 0, 4], [1, 1_000_000, 7]] {
        let mean = value(mixer(&weights).mix(&prices.iter().map(|p| Ok(*p)).collect()));
        assert!(outside(&prices[0]) <= mean && mean <= outside(&prices[2]));
    }
    let third = value(mixer(&[2, 1]).mix(&vec![Ok(Decimal::new(1, 0)), Ok(Decimal::new(2, 0))]));
    assert_eq!(
        third,
        rust_decimal::Decimal::from_i128_with_scale(13_333_333_333_333_333_333_333_333_333, 28)
    );
}

#[test]
fn prices_without_weight_have_no_influence() {
    let answers = vec![Ok(Decimal::new(3, 0)), Ok(Decimal::new(900, 0)), Ok(Decimal::new(5, 0))];
    assert_eq!(value(mixer(&[1, 0, 1]).mix(&answers)), rust_decimal::Decimal::from(4));
}

#[test]
fn order_of_exchanges_does_not_count() {
    let exchanges = [(Ok(Decimal::new(105, 1)), 1), (Err(STALE), 9), (Ok(Decimal::new(2, 0)), 4)];
    for order in [[0, 1, 2], [0, 2, 1], [1, 0, 2], [1, 2, 0], [2, 0, 1], [2, 1, 0]] {
        let weights: Vec<i128> = order.iter().map(|i| exchanges[*i].1).collect();
        let answers = order.iter().map(|i| exchanges[*i].0).collect();
        assert_eq!(value(mixer(&weights).mix(&answers)), rust_decimal::Decimal::new(37, 1));
    }
}

#[test]
fn weights_that_cancel() {
    let one: Result<Decimal, ExchangePriceCacheError> = Ok(Decimal::new(1, 0));
    assert!(mixer(&[0]).lacks_weight(&vec![one]));
    assert!(mixer(&[1, -1]).lacks_weight(&vec![one, one]));
    assert!(mixer(&[0, 5]).lacks_weight(&vec![one, Err(STALE)]));
    assert!(!mixer(&[1, -1]).lacks_weight(&vec![one, Err(STALE)]));
    assert!(!mixer(&[0]).lacks_weight(&vec![Err::<Decimal, _>(STALE)]));
    assert!(!mixer(&[2]).lacks_weight(&vec![one]));
    let half = PriceMixer::new(vec![
        Provider { exchange: "a".to_string(), weight: Decimal::new(5, 1) },
        Provider { exchange: "b".to_string(), weight: Decimal::new(-50, 2) },
    ]);
    assert!(half.lacks_weight(&vec![one, one]));
}

#[test]
fn any_failed_exchanges_do_not_count() {
    let all = mixer(&[1, 100, 3, 7]).mix(&vec![
        Ok(Decimal::new(10, 0)),
        Err(STALE),
        Ok(Decimal::new(20, 0)),
        Err(MISSING),
    ]);
    let answered = mixer(&[1, 3]).mix(&vec![Ok(Decimal::new(10, 0)), Ok(Decimal::new(20, 0))]);
    assert_eq!(parts(&all.unwrap().unwrap()), parts(&answered.unwrap().unwrap()));
}

#[test]
fn means_at_the_edge_of_the_range() {
    let largest = Decimal::new(79_228_162_514_264_337_593_543_950_335, 0);
    let mixed = mixer(&[1]).mix(&vec![Ok(largest)]);
    assert_eq!(value(mixed), outside(&largest));
    let half = PriceMixer::new(vec![
        Provider { exchange: "a".to_string(), weight: Decimal::new(5, 1) },
        Provider { exchange: "b".to_string(), weight: Decimal::new(0, 0) },
    ]);
    let odd = Decimal::new(15_845_632_502_852_867_518_708_790_067, 0);
    assert_eq!(value(half.mix(&vec![Ok(odd), Ok(largest)])), outside(&odd));
}

#[test]
fn mean_is_rounded_where_it_must_be() {
    let mixed = mixer(&[1, 1, 1])
        .mix(&vec![Ok(Decimal::new(1, 0)), Ok(Decimal::new(0, 0)), Ok(Decimal::new(0, 0))]);
    assert_eq!(
        parts(&mixed.unwrap().unwrap()),
        (3_333_333_333_333_333_333_333_333_333, 28)
    );
}

#[test]
fn equal_prices_mix_to_that_price() {
    for price in [Decimal::new(-12_345, 2), Decimal::new(7, 0), Decimal::new(700, 2)] {
        let mixed = mixer(&[2, 0, 5]).mix(&vec![Ok(price), Ok(price), Ok(price)]);
        assert_eq!(parts(&mixed.unwrap().unwrap()), parts(&price));
    }
    let nothing = Decimal::new(0, 3);
    let mixed = mixer(&[2]).mix(&vec![Ok(nothing)]);
    assert_eq!(mixed.unwrap().unwrap().mantissa(), 0);
}

#[test]
fn failed_exchanges_do_not_count() {
    let mixed =
        mixer(&[1, 100, 3]).mix(&vec![Ok(Decimal::new(10, 0)), Err(STALE), Ok(Decimal::new(20, 0))]);
    assert_eq!(outside(&mixed.unwrap().unwrap()), rust_decimal::Decimal::new(175, 1));
}

#[test]
fn mix_fails_only_when_all_fail() {
    assert_eq!(mixer(&[1, 2]).mix(&vec![Err(MISSING), Err(STALE)]).unwrap().unwrap_err(), STALE);
    assert_eq!(mixer(&[1, 2]).mix(&vec![Err(STALE), Err(MISSING)]).unwrap().unwrap_err(), MISSING);
    assert!(mixer(&[1, 2]).mix(&vec![Err(STALE), Ok(Decimal::new(1, 0))]).unwrap().is_ok());
}

#[test]
fn no_mix_out_of_range() {
    let largest = Decimal::new(79_228_162_514_264_337_593_543_950_335, 0);
    assert!(mixer(&[2]).mix(&vec![Ok(largest)]).is_none());
    assert!(mixer(&[1, 1]).mix(&vec![Ok(largest), Ok(largest)]).is_none());
    assert_eq!(mixer(&[0]).mix(&vec![Err(STALE)]).unwrap().unwrap_err(), STALE);
}

#[test]
fn apply_asks_only_exchanges_with_a_market() {
    let latest: Vec<Result<i128, ExchangePriceCacheError>> = vec![Err(STALE), Ok(8)];
    let mixed = mixer(&[1, 2]).apply(&latest, |n: &i128| Decimal::new(*n, 1));
    assert_eq!(parts(&mixed.unwrap().unwrap()), (8, 1));
}

#[test]
fn mixer_keeps_its_exchanges() {
    let mixer = mixer(&[4, 5]);
    assert_eq!(mixer.providers().len(), 2);
    assert_eq!(mixer.providers()[1].exchange, "exchange 1");
    assert_eq!(mixer.providers()[1].weight.mantissa(), 5);
}

#[test]
fn whole_numbers_below_and_above() {
    assert_eq!(parts(&Decimal::new(3_641, 3).floor()), (3, 0));
    assert_eq!(parts(&Decimal::new(3_141, 3).ceil()), (4, 0));
    assert_eq!(parts(&Decimal::new(-15, 1).floor()), (-2, 0));
    assert_eq!(parts(&Decimal::new(-15, 1).ceil()), (-1, 0));
    assert_eq!(parts(&Decimal::new(-5, 1).floor()), (-1, 0));
    assert_eq!(parts(&Decimal::new(-5, 1).ceil()), (0, 0));
    assert_eq!(parts(&Decimal::new(30, 1).floor()), (3, 0));
    assert_eq!(parts(&Decimal::new(30, 1).ceil()), (3, 0));
    assert_eq!(parts(&Decimal::new(7, 0).floor()), (7, 0));
    assert_eq!(parts(&Decimal::new(7, 0).ceil()), (7, 0));
    assert_eq!(parts(&Decimal::new(1, 28).floor()), (0, 0));
    assert_eq!(parts(&Decimal::new(1, 28).ceil()), (1, 0));
    assert_eq!(parts(&Decimal::new(0, 4).floor()), (0, 0));
    assert_eq!(parts(&Decimal::zero()), (0, 0));
}

#[test]
fn amounts_are_rounded() {
    let amount = Decimal::new(25, 1);
    assert_eq!(parts(UsdCents::from_decimal(amount).floor().amount()), (2, 0));
    assert_eq!(parts(UsdCents::from_decimal(amount).ceil().amount()), (3, 0));
    assert_eq!(parts(Sats::from_decimal(amount).floor().amount()), (2, 0));
    assert_eq!(parts(Sats::from_decimal(amount).ceil().amount()), (3, 0));
}

#[test]
fn cents_for_sats() {
    // One market buys at 2.01 and sells at 4.01 cents for a satoshi.
    let app = app(&[1]);
    let latest = vec![Ok(market(201, 401, 2))];
    let quote = app.get_cents_from_sats_for_immediate_buy(&latest, sats(100));
    assert_eq!(parts(quote.unwrap().unwrap().amount()), (198, 0));
    let quote = app.get_cents_from_sats_for_immediate_sell(&latest, sats(100));
    assert_eq!(parts(quote.unwrap().unwrap().amount()), (406, 0));
    let quote = app.get_cents_from_sats_for_future_buy(&latest, sats(100));
    assert_eq!(parts(quote.unwrap().unwrap().amount()), (180, 0));
    let quote = app.get_cents_from_sats_for_future_sell(&latest, sats(100));
    assert_eq!(parts(quote.unwrap().unwrap().amount()), (442, 0));
}

#[test]
fn sats_for_cents() {
    // One market buys at 2 and sells at 4 cents for a satoshi.
    let app = app(&[1]);
    let latest = vec![Ok(market(2, 4, 0))];
    let quote = app.get_sats_from_cents_for_immediate_buy(&latest, cents(201));
    assert_eq!(parts(quote.unwrap().unwrap().amount()), (102, 0));
    let quote = app.get_sats_from_cents_for_immediate_sell(&latest, cents(201));
    assert_eq!(parts(quote.unwrap().unwrap().amount()), (49, 0));
    let quote = app.get_sats_from_cents_for_future_buy(&latest, cents(201));
    assert_eq!(parts(quote.unwrap().unwrap().amount()), (111, 0));
    let quote = app.get_sats_from_cents_for_future_sell(&latest, cents(201));
    assert_eq!(parts(quote.unwrap().unwrap().amount()), (45, 0));
}

#[test]
fn mid_rate_is_mixed() {
    let latest = vec![Ok(market(2, 4, 0)), Err(STALE), Ok(market(5, 9, 0))];
    let rate = app(&[1, 1, 3]).get_cents_per_sat_exchange_mid_rate(&latest);
    assert_eq!(parts(rate.unwrap().unwrap().amount()), (6, 0));
}

#[test]
fn quotes_fail_only_without_market() {
    let app = app(&[1, 1]);
    let latest: Vec<Result<Market, ExchangePriceCacheError>> = vec![Err(STALE), Err(MISSING)];
    let expected = PriceAppError::ExchangePriceCacheError(MISSING);
    let quote = app.get_cents_from_sats_for_immediate_buy(&latest, sats(1));
    assert_eq!(quote.unwrap().unwrap_err(), expected);
    let quote = app.get_sats_from_cents_for_future_sell(&latest, cents(1));
    assert_eq!(quote.unwrap().unwrap_err(), expected);
    let rate = app.get_cents_per_sat_exchange_mid_rate(&latest);
    assert_eq!(rate.unwrap().unwrap_err(), expected);
    let latest = vec![Err(STALE), Ok(market(1, 1, 0))];
    assert!(app.get_cents_from_sats_for_future_buy(&latest, sats(1)).unwrap().is_ok());
}

fn exchange_config(weight: i128) -> Option<ExchangeConfig> {
    Some(ExchangeConfig { weight: Decimal::new(weight, 0) })
}

#[test]
fn start_with_both_exchanges() {
    let cfg = ExchangeConfigAll { kollider: exchange_config(2), okex: exchange_config(3) };
    let startup = PriceApp::run(Fees, cfg);
    assert_eq!(startup.action(), StartupAction::Subscribe(Exchange::Kollider));
    let startup = startup.on_subscribed::<String>(Ok(())).ok().unwrap();
    assert_eq!(startup.action(), StartupAction::Subscribe(Exchange::Okex));
    let startup = startup.on_subscribed::<String>(Ok(())).ok().unwrap();
    assert_eq!(startup.action(), StartupAction::Finish);
    let (app, watched) = startup.finish();
    let providers = app.price_mixer().providers();
    assert_eq!(providers.len(), 2);
    assert_eq!(providers[0].exchange, "kollider");
    assert_eq!(providers[0].weight.mantissa(), 2);
    assert_eq!(providers[1].exchange, "okex");
    assert_eq!(providers[1].weight.mantissa(), 3);
    assert_eq!(watched, vec![Exchange::Kollider]);
    assert_eq!(parts(&app.fee_calculator().decrease_by_delayed_fee(Decimal::new(1, 0))), (90, 2));
}

#[test]
fn start_with_okex_alone() {
    let startup =
        PriceApp::run(Fees, ExchangeConfigAll { kollider: None, okex: exchange_config(3) });
    assert_eq!(startup.action(), StartupAction::Subscribe(Exchange::Okex));
    let (app, watched) = startup.on_subscribed::<()>(Ok(())).ok().unwrap().finish();
    assert_eq!(app.price_mixer().providers().len(), 1);
    assert_eq!(app.price_mixer().providers()[0].exchange, "okex");
    assert!(watched.is_empty());
}

#[test]
fn start_without_exchanges() {
    let startup = PriceApp::run(Fees, ExchangeConfigAll { kollider: None, okex: None });
    assert_eq!(startup.action(), StartupAction::Finish);
    let (app, watched) = startup.finish();
    assert!(app.price_mixer().providers().is_empty());
    assert!(watched.is_empty());
}

#[test]
fn start_fails_with_a_subscription() {
    let cfg = ExchangeConfigAll { kollider: exchange_config(2), okex: exchange_config(3) };
    let failed = PriceApp::run(Fees, cfg).on_subscribed(Err("no connection"));
    assert_eq!(failed.err(), Some("no connection"));
}

#[test]
fn unhealthy_only_when_all_are() {
    assert_eq!(check_health::<u8>(vec![]), Ok(()));
    assert_eq!(check_health::<u8>(vec![Ok(())]), Ok(()));
    assert_eq!(check_health(vec![Err(1), Ok(())]), Ok(()));
    assert_eq!(check_health(vec![Ok(()), Err(1)]), Ok(()));
    assert_eq!(check_health(vec![Err(1)]), Err(1));
    assert_eq!(check_health(vec![Err(2), Err(1)]), Err(2));
}

#[test]
fn limits_in_seconds() {
    assert_eq!(EXCHANGE_CACHE_STALE_AFTER, 30);
    assert_eq!(HEALTHY_WITHIN, 20);
    assert_eq!(Exchange::Kollider.id(), "kollider");
    assert_eq!(Exchange::Okex.id(), "okex");
}
