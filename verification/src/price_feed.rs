//! The stream of prices of the Kollider exchange.

use serde_json::Value;
use vstd::prelude::*;

use crate::json::{
    add_member, array_value, json_array, json_object, json_quoted, json_text, member_texts,
    object_text, string_value,
};

verus! {

/// Where the stream of prices is.
#[derive(Debug)]
pub struct KolliderPriceFeedConfig {
    pub url: String,
}

/// A subscription: the address to connect to, and the message to send there first.
#[derive(Debug)]
pub struct FeedSubscription {
    pub url: String,
    pub message: String,
}

/// A message of the stream: a text, or something else.
#[derive(Debug)]
pub enum FeedMessage {
    Text(String),
    Other,
}

/// The message that subscribes to the ticker of the perpetual contract.
pub open spec fn subscribe_message() -> Seq<char> {
    json_object(
        seq![
            ("channels"@, json_array(seq![json_quoted("ticker"@)])),
            ("symbols"@, json_array(seq![json_quoted("BTCUSD.PERP"@)])),
            ("type"@, json_quoted("subscribe"@)),
        ],
    )
}

/// A JSON array of one string.
fn one_string(text: &str) -> (value: Value)
    ensures
        json_text(value) == json_array(seq![json_quoted(text@)]),
{
    let mut elements: Vec<Value> = Vec::new();
    elements.push(string_value(text));
    assert(elements@.map_values(|v: Value| json_text(v)) =~= seq![json_quoted(text@)]);
    array_value(elements)
}

/// The subscription to the prices of the exchange.
pub fn subscribe_price_feed(config: KolliderPriceFeedConfig) -> (subscription: FeedSubscription)
    ensures
        subscription.url@ == config.url@,
        subscription.message@ == subscribe_message(),
{
    proof {
        reveal_strlit("channels");
        reveal_strlit("symbols");
        reveal_strlit("type");
    }
    let mut members: Vec<(&'static str, Value)> = Vec::new();
    add_member(&mut members, "channels", one_string("ticker"));
    add_member(&mut members, "symbols", one_string("BTCUSD.PERP"));
    add_member(&mut members, "type", string_value("subscribe"));
    assert(member_texts(members@) =~= seq![
        ("channels"@, json_array(seq![json_quoted("ticker"@)])),
        ("symbols"@, json_array(seq![json_quoted("BTCUSD.PERP"@)])),
        ("type"@, json_quoted("subscribe"@)),
    ]);
    FeedSubscription { url: config.url, message: object_text(members) }
}

/// Whether `part` stands somewhere in `text`.
pub open spec fn occurs_in(part: Seq<char>, text: Seq<char>) -> bool {
    exists|start: int|
        0 <= start <= text.len() - part.len() && #[trigger] text.subrange(
            start,
            start + part.len(),
        ) == part
}

/// Calls `str::contains` with a string, which says whether it matches a part of the text.
#[verifier::external_body]
fn text_contains(text: &str, part: &str) -> (found: bool)
    ensures
        found == occurs_in(part@, text@),
{
    text.contains(part)
}

/// The text of a tick, if the message is one: a text that does not report success.
pub fn tick_text(message: FeedMessage) -> (tick: Option<String>)
    ensures
        tick == match message {
            FeedMessage::Text(text) => if occurs_in("success"@, text@) {
                None
            } else {
                Some(text)
            },
            FeedMessage::Other => None,
        },
{
    match message {
        FeedMessage::Text(text) => {
            if !text_contains(&text, "success") {
                Some(text)
            } else {
                None
            }
        },
        FeedMessage::Other => None,
    }
}

} // verus!
