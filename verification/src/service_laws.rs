//! What the service does while it starts and runs.

use vstd::prelude::*;

use crate::client::{JITTER_INTERVAL_SECS, JITTER_MIN_SECS, REQUESTS_PER_SECOND};
use crate::decimal::{law_rounding_bounds, ten_to, Decimal};
use crate::json::{
    comma_separated, json_array, json_escape, json_escaped, json_object, json_quoted, member_parts,
};
use crate::price_app::{
    configured, watched, Exchange, ExchangeConfigAll, FeeCalculator, PriceApp, Startup,
    EXCHANGE_CACHE_STALE_AFTER, HEALTHY_WITHIN,
};
use crate::price_feed::{
    subscribe_price_feed, tick_text, FeedMessage, FeedSubscription, KolliderPriceFeedConfig,
};

verus! {

/// A text without quotation marks, backslashes and control characters is written as it is.
proof fn lemma_plain_text_is_not_escaped(text: Seq<char>)
    requires
        forall|i: int|
            0 <= i < text.len() ==> (#[trigger] text[i]) != '"' && text[i] != '\\' && (text[i]
                as int) >= 32,
    ensures
        json_escaped(text) == text,
    decreases text.len(),
{
    if text.len() > 0 {
        let rest = text.drop_first();
        assert forall|i: int| 0 <= i < rest.len() implies (#[trigger] rest[i]) != '"' && rest[i]
            != '\\' && (rest[i] as int) >= 32 by {
            assert(rest[i] == text[i + 1]);
        }
        lemma_plain_text_is_not_escaped(rest);
        assert(json_escape(text[0]) == seq![text[0]]);
        assert(text =~= seq![text[0]] + rest);
    } else {
        assert(text =~= seq![]);
    }
}

/// The subscription goes to the configured address, and is this very text, whatever the address.
pub proof fn law_subscription_text(config: KolliderPriceFeedConfig, subscription: FeedSubscription)
    requires
        call_ensures(subscribe_price_feed, (config,), subscription),
    ensures
        subscription.url@ == config.url@,
        subscription.message@
            == "{\"channels\":[\"ticker\"],\"symbols\":[\"BTCUSD.PERP\"],\"type\":\"subscribe\"}"@,
{
    reveal_strlit(
        "{\"channels\":[\"ticker\"],\"symbols\":[\"BTCUSD.PERP\"],\"type\":\"subscribe\"}",
    );
    reveal_strlit("channels");
    reveal_strlit("symbols");
    reveal_strlit("type");
    reveal_strlit("ticker");
    reveal_strlit("BTCUSD.PERP");
    reveal_strlit("subscribe");
    lemma_plain_text_is_not_escaped("channels"@);
    lemma_plain_text_is_not_escaped("symbols"@);
    lemma_plain_text_is_not_escaped("type"@);
    lemma_plain_text_is_not_escaped("ticker"@);
    lemma_plain_text_is_not_escaped("BTCUSD.PERP"@);
    lemma_plain_text_is_not_escaped("subscribe"@);
    let ticker = seq![json_quoted("ticker"@)];
    let symbol = seq![json_quoted("BTCUSD.PERP"@)];
    let members = seq![
        ("channels"@, json_array(ticker)),
        ("symbols"@, json_array(symbol)),
        ("type"@, json_quoted("subscribe"@)),
    ];
    let parts = member_parts(members);
    assert(comma_separated(ticker) == ticker[0]);
    assert(comma_separated(symbol) == symbol[0]);
    let last = parts.drop_first().drop_first();
    assert(comma_separated(last) == parts[2]);
    assert(comma_separated(parts.drop_first()) == parts[1] + seq![','] + comma_separated(last));
    assert(comma_separated(parts) == parts[0] + seq![','] + comma_separated(parts.drop_first()));
    assert(subscription.message@ == json_object(members));
    assert(parts[0] =~= seq!['"'] + "channels"@ + seq!['"', ':', '[', '"'] + "ticker"@ + seq![
        '"',
        ']',
    ]);
    assert(parts[1] =~= seq!['"'] + "symbols"@ + seq!['"', ':', '[', '"'] + "BTCUSD.PERP"@ + seq![
        '"',
        ']',
    ]);
    assert(parts[2] =~= seq!['"'] + "type"@ + seq!['"', ':', '"'] + "subscribe"@ + seq!['"']);
    assert(subscription.message@
        =~= "{\"channels\":[\"ticker\"],\"symbols\":[\"BTCUSD.PERP\"],\"type\":\"subscribe\"}"@);
}

/// A text with `success` anywhere in it is no tick. Any other text is one, as it is. A message that
/// is not a text is none.
pub proof fn law_ticks_are_texts_without_success(message: FeedMessage, tick: Option<String>)
    requires
        call_ensures(tick_text, (message,), tick),
    ensures
        message is Other ==> tick is None,
        message matches FeedMessage::Text(text) ==> (tick is None <==> exists|
            before: Seq<char>,
            after: Seq<char>,
        |
            text@ == #[trigger] (before + "success"@ + after)),
        message matches FeedMessage::Text(text) ==> (tick matches Some(kept) ==> kept@ == text@),
{
    if let FeedMessage::Text(text) = message {
        let part = "success"@;
        if tick is None {
            let start = choose|start: int|
                0 <= start <= text@.len() - part.len() && #[trigger] text@.subrange(
                    start,
                    start + part.len(),
                ) == part;
            let before = text@.take(start);
            let after = text@.skip(start + part.len());
            assert(text@.subrange(start, start + part.len()) == part);
            assert(text@ =~= before + part + after);
        }
        if exists|before: Seq<char>, after: Seq<char>| text@ == #[trigger] (before + part + after) {
            let (before, after) = choose|before: Seq<char>, after: Seq<char>|
                text@ == #[trigger] (before + part + after);
            let start = before.len() as int;
            assert(text@.subrange(start, start + part.len()) =~= part);
        }
    }
}

/// The exchanges are known by these names.
pub proof fn law_names_of_exchanges(exchange: Exchange, name: &'static str)
    requires
        call_ensures(Exchange::id, (&exchange,), name),
    ensures
        exchange == Exchange::Kollider ==> name@ == "kollider"@,
        exchange == Exchange::Okex ==> name@ == "okex"@,
{
}

/// The service starts with the exchanges that are configured, with their weights, Kollider first,
/// and with the given fees, and is subscribed to none of them yet.
pub proof fn law_start_with_configured_exchanges<F: FeeCalculator>(
    fees: F,
    cfg: ExchangeConfigAll,
    startup: Startup<F>,
)
    requires
        call_ensures(PriceApp::<F>::run, (fees, cfg), startup),
    ensures
        startup.fees() == fees,
        startup.subscribed() == 0,
        startup.exchanges() == match (cfg.kollider, cfg.okex) {
            (Some(kollider), Some(okex)) => seq![
                (Exchange::Kollider, kollider.weight),
                (Exchange::Okex, okex.weight),
            ],
            (Some(kollider), None) => seq![(Exchange::Kollider, kollider.weight)],
            (None, Some(okex)) => seq![(Exchange::Okex, okex.weight)],
            (None, None) => Seq::<(Exchange, Decimal)>::empty(),
        },
{
    assert(configured(cfg) =~= match (cfg.kollider, cfg.okex) {
        (Some(kollider), Some(okex)) => seq![
            (Exchange::Kollider, kollider.weight),
            (Exchange::Okex, okex.weight),
        ],
        (Some(kollider), None) => seq![(Exchange::Kollider, kollider.weight)],
        (None, Some(okex)) => seq![(Exchange::Okex, okex.weight)],
        (None, None) => Seq::<(Exchange, Decimal)>::empty(),
    });
}

/// The started service mixes the exchanges under their names, each with its weight, in their order,
/// and has the fees it was started with.
pub proof fn law_started_service_mixes_its_exchanges<F: FeeCalculator>(
    startup: Startup<F>,
    started: (PriceApp<F>, Vec<Exchange>),
)
    requires
        call_ensures(Startup::<F>::finish, (startup,), started),
    ensures
        started.0.fees() == startup.fees(),
        started.0.mixer()@.len() == startup.exchanges().len(),
        forall|i: int|
            0 <= i < startup.exchanges().len() ==> {
                let provider = #[trigger] started.0.mixer()@[i];
                &&& provider.weight == startup.exchanges()[i].1
                &&& startup.exchanges()[i].0 == Exchange::Kollider ==> provider.exchange@
                    == "kollider"@
                &&& startup.exchanges()[i].0 == Exchange::Okex ==> provider.exchange@ == "okex"@
            },
{
}

/// The health of the service depends on the subscription to Kollider, if it takes part, and on no
/// other.
pub proof fn law_kollider_alone_is_watched<F: FeeCalculator>(
    startup: Startup<F>,
    started: (PriceApp<F>, Vec<Exchange>),
)
    requires
        call_ensures(Startup::<F>::finish, (startup,), started),
    ensures
        forall|i: int|
            0 <= i < started.1@.len() ==> #[trigger] started.1@[i] == Exchange::Kollider,
        started.1@.len() == startup.exchanges().filter(
            |exchange: (Exchange, Decimal)| exchange.0 == Exchange::Kollider,
        ).len(),
{
    lemma_watched(startup.exchanges());
}

/// The watched exchanges are as many as there are entries for Kollider, and are no others.
proof fn lemma_watched(exchanges: Seq<(Exchange, Decimal)>)
    ensures
        forall|i: int|
            0 <= i < watched(exchanges).len() ==> #[trigger] watched(exchanges)[i]
                == Exchange::Kollider,
        watched(exchanges).len() == exchanges.filter(
            |exchange: (Exchange, Decimal)| exchange.0 == Exchange::Kollider,
        ).len(),
    decreases exchanges.len(),
{
    reveal(Seq::filter);
    if exchanges.len() > 0 {
        lemma_watched(exchanges.drop_last());
    }
}

/// Rounding down gives the largest whole number that is not above the number.
pub proof fn law_floor(number: Decimal, whole: Decimal)
    requires
        call_ensures(Decimal::floor, (&number,), whole),
    ensures
        whole.places() == 0,
        whole.digits() * ten_to(number.places()) <= number.digits() < (whole.digits() + 1) * ten_to(
            number.places(),
        ),
{
    law_rounding_bounds(number);
}

/// Rounding up gives the smallest whole number that is not below the number.
pub proof fn law_ceil(number: Decimal, whole: Decimal)
    requires
        call_ensures(Decimal::ceil, (&number,), whole),
    ensures
        whole.places() == 0,
        (whole.digits() - 1) * ten_to(number.places()) < number.digits() <= whole.digits() * ten_to(
            number.places(),
        ),
{
    law_rounding_bounds(number);
}

/// One request a second goes to a path, one to two seconds after it may. A price is usable for half
/// a minute, and a subscription is healthy with a message in the last twenty seconds.
pub proof fn law_limits()
    ensures
        REQUESTS_PER_SECOND == 1,
        JITTER_MIN_SECS == 1,
        JITTER_INTERVAL_SECS == 1,
        EXCHANGE_CACHE_STALE_AFTER == 30,
        HEALTHY_WITHIN == 20,
{
}

} // verus!
