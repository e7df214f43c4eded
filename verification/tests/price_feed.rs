use price_server::price_feed::{
    subscribe_price_feed, tick_text, FeedMessage, KolliderPriceFeedConfig,
};

#[test]
fn subscription_message() {
    let subscription = subscribe_price_feed(KolliderPriceFeedConfig {
        url: "wss://feed.example.com".to_string(),
    });
    assert_eq!(subscription.url, "wss://feed.example.com");
    assert_eq!(
        subscription.message,
        r#"{"channels":["ticker"],"symbols":["BTCUSD.PERP"],"type":"subscribe"}"#
    );
}

#[test]
fn ticks_are_texts_without_success() {
    let tick = r#"{"data":{"symbol":"BTCUSD.PERP"}}"#;
    assert_eq!(tick_text(FeedMessage::Text(tick.to_string())).as_deref(), Some(tick));
    assert_eq!(tick_text(FeedMessage::Text(String::new())).as_deref(), Some(""));
    assert_eq!(tick_text(FeedMessage::Text("SUCCESS".to_string())).as_deref(), Some("SUCCESS"));
    assert!(tick_text(FeedMessage::Text("success".to_string())).is_none());
    assert!(tick_text(FeedMessage::Text(r#"{"type":"success"}"#.to_string())).is_none());
    assert!(tick_text(FeedMessage::Text("unsuccessful".to_string())).is_none());
    assert!(tick_text(FeedMessage::Other).is_none());
}
