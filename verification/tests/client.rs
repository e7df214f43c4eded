use price_server::client::{
    ApiRequest, KolliderClient, KolliderClientConfig, KolliderClientError, Method,
};
use price_server::clock::{timestamp, timestamp_at};
use reqwest::header::{HeaderMap, CONTENT_TYPE};

fn config() -> KolliderClientConfig {
    KolliderClientConfig {
        url: "https://api.example.com".to_string(),
        api_key: "my key".to_string(),
        passphrase: "p\tss".to_string(),
        secret: "a2V5".to_string(),
    }
}

fn client() -> KolliderClient {
    KolliderClient::new(config())
}

fn field(headers: &HeaderMap, name: &str) -> String {
    assert_eq!(headers.get_all(name).iter().count(), 1);
    String::from_utf8(headers[name].as_bytes().to_vec()).unwrap()
}

fn body(request: &ApiRequest) -> &str {
    request.body.as_deref().unwrap()
}

/// Signs the message of a request again, with the time that its headers give.
fn signature_again(request: &ApiRequest) -> String {
    let method = match request.method {
        Method::Get => "GET",
        Method::Post => "POST",
    };
    let message = format!(
        "{}{}{}{}",
        field(&request.headers, "k-timestamp"),
        method,
        request.path,
        request.body.as_deref().unwrap_or("")
    );
    KolliderClient::generate_signature("a2V5", &message).unwrap()
}

#[test]
fn default_config_is_empty() {
    let config = KolliderClientConfig::default();
    assert_eq!(config.url, "");
    assert_eq!(config.api_key, "");
    assert_eq!(config.passphrase, "");
    assert_eq!(config.secret, "");
}

#[test]
fn clones_are_equal() {
    let copy = config().clone();
    assert_eq!(copy.url, config().url);
    assert_eq!(copy.secret, config().secret);
    assert_eq!(client().clone().get_products().url, client().get_products().url);
}

#[test]
fn signature_of_known_message() {
    // The second case of RFC 4231: the key is "Jefe".
    let signed = KolliderClient::generate_signature("SmVmZQ==", "what do ya want for nothing?");
    assert_eq!(signed.unwrap(), "W9zBRr9gdU5qBCQmCJV1x1oAPwidJzmDnexYuWTsOEM=");
}

#[test]
fn signature_has_44_characters() {
    for message in ["", "x", "a longer message with \u{20ac}"] {
        let signed = KolliderClient::generate_signature("", message).unwrap();
        assert_eq!(signed.len(), 44);
        assert_eq!(signed.find('='), Some(43));
    }
}

#[test]
fn secret_must_be_base64() {
    for secret in ["a2V", "a2V5=", "a 2V", "\u{20ac}"] {
        let err = KolliderClient::generate_signature(secret, "message").unwrap_err();
        assert!(matches!(err, KolliderClientError::DecodeError(_)));
    }
}

#[test]
fn padded_parts_of_a_secret_are_joined() {
    let joined = KolliderClient::generate_signature("SmU=ZmU=", "m").unwrap();
    assert_eq!(joined, KolliderClient::generate_signature("SmVmZQ==", "m").unwrap());
}

#[test]
fn headers_hold_the_account() {
    let headers = client().create_headers("now", "signed").unwrap();
    assert_eq!(headers.len(), 5);
    assert_eq!(headers[CONTENT_TYPE], "application/json");
    assert_eq!(field(&headers, "content-type"), "application/json");
    assert_eq!(field(&headers, "k-signature"), "signed");
    assert_eq!(field(&headers, "k-timestamp"), "now");
    assert_eq!(field(&headers, "k-passphrase"), "p\tss");
    assert_eq!(field(&headers, "k-api-key"), "my key");
}

#[test]
fn headers_refuse_control_characters() {
    assert!(matches!(
        client().create_headers("no\nw", "signed").unwrap_err(),
        KolliderClientError::InvalidHeaderValue(_)
    ));
    assert!(client().create_headers("now", "sig\u{7f}ned").is_err());
    assert!(client().create_headers("now", "\u{1f}").is_err());
    assert!(client().create_headers("", "\u{20ac}").is_ok());
    let mut bad = config();
    bad.passphrase = "\0".to_string();
    assert!(KolliderClient::new(bad).create_headers("now", "signed").is_err());
    let mut bad = config();
    bad.api_key = "a\r".to_string();
    assert!(KolliderClient::new(bad).create_headers("now", "signed").is_err());
}

#[test]
fn signed_headers_for_a_given_time() {
    let headers = client()
        .signed_headers("2018-01-26T18:30:09.453Z", "GET", "/user/balances", "")
        .unwrap();
    assert_eq!(field(&headers, "k-timestamp"), "2018-01-26T18:30:09.453Z");
    assert_eq!(field(&headers, "k-signature"), "Z+WfEdi7mq+PLrbajoPCBdcYW4zl2Vr5mIHGNgs2TYE=");
    let headers = client()
        .signed_headers(
            "2018-01-26T18:30:09.453Z",
            "POST",
            "/wallet/deposit",
            r#"{"amount":-5,"type":"Ln"}"#,
        )
        .unwrap();
    assert_eq!(field(&headers, "k-signature"), "6xtd+jBnAjgK9kptfhl4H/P6NH5xmR+lHpp8o4U2oJ4=");
}

#[test]
fn errors_of_an_account() {
    let mut bad = config();
    bad.secret = "not base64".to_string();
    bad.api_key = "\n".to_string();
    assert!(matches!(
        KolliderClient::new(bad).get_user_balances().unwrap_err(),
        KolliderClientError::DecodeError(_)
    ));
    let mut bad = config();
    bad.api_key = "\n".to_string();
    let bad = KolliderClient::new(bad);
    assert!(matches!(
        bad.make_deposit(1).unwrap_err(),
        KolliderClientError::InvalidHeaderValue(_)
    ));
    assert!(bad.create_get_headers("/p").is_err());
    assert!(bad.create_post_headers("/p", "b").is_err());
    assert!(bad.make_withdrawal(1, "ln").is_err());
    assert!(bad.place_order(1, 1).is_err());
    assert_eq!(bad.get_products().path, "/market/products");
}

#[test]
fn balances_request() {
    let request = client().get_user_balances().unwrap();
    assert_eq!(request.method, Method::Get);
    assert_eq!(request.path, "/user/balances");
    assert_eq!(request.url, "https://api.example.com/user/balances");
    assert!(request.body.is_none());
    assert_eq!(request.headers.len(), 5);
    assert_eq!(field(&request.headers, "k-signature"), signature_again(&request));
}

#[test]
fn products_request_is_not_signed() {
    let request = client().get_products();
    assert_eq!(request.method, Method::Get);
    assert_eq!(request.url, "https://api.example.com/market/products");
    assert!(request.body.is_none());
    assert!(request.headers.is_empty());
}

#[test]
fn deposit_request() {
    let request = client().make_deposit(100_000).unwrap();
    assert_eq!(request.method, Method::Post);
    assert_eq!(request.path, "/wallet/deposit");
    assert_eq!(request.url, "https://api.example.com/wallet/deposit");
    assert_eq!(body(&request), r#"{"amount":100000,"type":"Ln"}"#);
    assert_eq!(field(&request.headers, "k-signature"), signature_again(&request));
    assert_eq!(
        body(&client().make_deposit(i32::MIN).unwrap()),
        r#"{"amount":-2147483648,"type":"Ln"}"#
    );
    assert_eq!(body(&client().make_deposit(0).unwrap()), r#"{"amount":0,"type":"Ln"}"#);
}

#[test]
fn withdrawal_request() {
    let request = client().make_withdrawal(7, "lnbc1").unwrap();
    assert_eq!(request.path, "/wallet/withdrawal");
    assert_eq!(request.url, "https://api.example.com/wallet/withdrawal");
    assert_eq!(
        body(&request),
        r#"{"amount":7,"payment_request":"lnbc1","type":"Ln"}"#
    );
    assert_eq!(field(&request.headers, "k-signature"), signature_again(&request));
}

#[test]
fn payment_request_is_escaped() {
    let request = client()
        .make_withdrawal(1, "\"\\/\u{8}\u{c}\n\r\t\u{0}\u{1f}\u{7f}\u{20ac}")
        .unwrap();
    let expected = [
        r#"{"amount":1,"payment_request":"\"\\/\b\f\n\r\t\u0000\u001f"#,
        "\u{7f}\u{20ac}",
        r#"","type":"Ln"}"#,
    ]
    .concat();
    assert_eq!(body(&request), expected);
}

#[test]
fn different_withdrawals_have_different_bodies() {
    let first = client().make_withdrawal(1, "a\",\"type\":\"x").unwrap();
    let second = client().make_withdrawal(1, "a").unwrap();
    let third = client().make_withdrawal(11, "a").unwrap();
    assert_ne!(body(&first), body(&second));
    assert_ne!(body(&second), body(&third));
}

#[test]
fn order_request() {
    let request = client().place_order(10, 200).unwrap();
    assert_eq!(request.method, Method::Post);
    assert_eq!(request.path, "/orders");
    assert_eq!(request.url, "https://api.example.com/orders");
    assert_eq!(
        body(&request),
        concat(&[
            r#"{"leverage":200,"margin_type":"Isolated","order_type":"Market","price":20399,"#,
            r#""quantity":10,"settlement_type":"Delayed","side":"Ask","symbol":"BTCUSD.PERP"}"#,
        ])
    );
    assert_eq!(field(&request.headers, "k-signature"), signature_again(&request));
    let swapped = client().place_order(200, 10).unwrap();
    assert_ne!(body(&request), body(&swapped));
}

fn concat(parts: &[&str]) -> String {
    parts.concat()
}

#[test]
fn signed_post_sends_what_it_signs() {
    let request = client().signed_post("/any", "{}".to_string()).unwrap();
    assert_eq!(request.url, "https://api.example.com/any");
    assert_eq!(body(&request), "{}");
    assert_eq!(field(&request.headers, "k-signature"), signature_again(&request));
}

#[test]
fn time_is_written_with_milliseconds() {
    assert_eq!(timestamp_at(1_516_991_409, 453_829_000), "2018-01-26T18:30:09.453Z");
    assert_eq!(timestamp_at(0, 999_999), "1970-01-01T00:00:00.000Z");
    assert_eq!(timestamp_at(8_210_266_876_799, 0), "+262142-12-31T23:59:59.000Z");
}

#[test]
fn current_time_is_a_timestamp() {
    let text = timestamp();
    assert_eq!(text.len(), 24);
    assert!(text.ends_with('Z'));
    assert!(text.as_str() > "2020-01-01T00:00:00.000Z");
}
