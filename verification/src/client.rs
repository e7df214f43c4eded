//! Requests to the Kollider exchange.

use data_encoding::DecodeError;
use reqwest::header::{HeaderMap, HeaderValue, InvalidHeaderValue};
use serde_json::Value;
use vstd::prelude::*;
use vstd::utf8::{encode_utf8, is_ascii_chars};

use crate::clock::{is_time_of_clock, is_timestamp, is_timestamp_text, timestamp};
use crate::headers::{
    append_header, header_fields, header_value, is_header_text, is_visible_ascii,
    lemma_visible_ascii_is_header_text, no_headers,
};
use crate::json::{
    add_member, integer_value, json_integer, json_object, json_quoted, law_integer_injective,
    law_object_injective, law_quoted_injective, lemma_integer_short, lemma_object_short,
    lemma_quoted_short, member_texts, object_text, string_value, text_before,
};
use crate::signing::{
    base64_decoded, decode_base64, encode_base64, hmac_sha256, is_base64_text, is_padded,
    sign_hmac_sha256, signature,
};
use crate::text::{byte_len, join, lemma_ascii_byte_len, lemma_encode_concat};

verus! {

/// How many requests to one path may be sent in a second.
pub const REQUESTS_PER_SECOND: u32 = 1;

/// How long a request waits at least, in seconds, once it may be sent.
pub const JITTER_MIN_SECS: u64 = 1;

/// How much longer, in seconds, it may wait by chance.
pub const JITTER_INTERVAL_SECS: u64 = 1;

/// The path of the balances of an account.
pub const USER_BALANCES_PATH: &'static str = "/user/balances";

/// The path of the products of the exchange.
pub const PRODUCTS_PATH: &'static str = "/market/products";

/// The path of deposits.
pub const DEPOSIT_PATH: &'static str = "/wallet/deposit";

/// The path of withdrawals.
pub const WITHDRAWAL_PATH: &'static str = "/wallet/withdrawal";

/// The path of orders.
pub const ORDERS_PATH: &'static str = "/orders";

/// Why a request cannot be made.
#[derive(Debug)]
pub enum KolliderClientError {
    /// The secret is not base64.
    DecodeError(DecodeError),
    /// A text cannot be sent as a header value.
    InvalidHeaderValue(InvalidHeaderValue),
}

/// Where the exchange is, and the account there.
#[derive(Debug)]
pub struct KolliderClientConfig {
    pub url: String,
    pub api_key: String,
    pub passphrase: String,
    pub secret: String,
}

impl Default for KolliderClientConfig {
    fn default() -> (config: Self)
        ensures
            config.url@ == Seq::<char>::empty(),
            config.api_key@ == Seq::<char>::empty(),
            config.passphrase@ == Seq::<char>::empty(),
            config.secret@ == Seq::<char>::empty(),
    {
        KolliderClientConfig {
            url: String::new(),
            api_key: String::new(),
            passphrase: String::new(),
            secret: String::new(),
        }
    }
}

impl Clone for KolliderClientConfig {
    fn clone(&self) -> (copy: Self)
        ensures
            copy == *self,
    {
        KolliderClientConfig {
            url: self.url.clone(),
            api_key: self.api_key.clone(),
            passphrase: self.passphrase.clone(),
            secret: self.secret.clone(),
        }
    }
}

/// A client of the exchange.
pub struct KolliderClient {
    config: KolliderClientConfig,
}

impl Clone for KolliderClient {
    fn clone(&self) -> (copy: Self)
        ensures
            copy@ == self@,
    {
        KolliderClient { config: self.config.clone() }
    }
}

impl View for KolliderClient {
    type V = KolliderClientConfig;

    closed spec fn view(&self) -> KolliderClientConfig {
        self.config
    }
}

/// The key that the secret of `config` holds, where it is base64.
pub open spec fn secret_key(config: KolliderClientConfig) -> Option<Seq<u8>> {
    base64_decoded(encode_utf8(config.secret@))
}

/// The message that is signed for a request: the time, the method, the path and the body.
pub open spec fn signed_message(
    timestamp: Seq<char>,
    method: Seq<char>,
    path: Seq<char>,
    body: Seq<char>,
) -> Seq<char> {
    timestamp + method + path + body
}

/// The header fields that tell the exchange who signed a request, and when.
pub open spec fn auth_fields(
    config: KolliderClientConfig,
    timestamp: Seq<char>,
    signature: Seq<char>,
) -> Map<Seq<char>, Seq<Seq<u8>>> {
    map![
        "content-type"@ => seq![encode_utf8("application/json"@)],
        "k-signature"@ => seq![encode_utf8(signature)],
        "k-timestamp"@ => seq![encode_utf8(timestamp)],
        "k-passphrase"@ => seq![encode_utf8(config.passphrase@)],
        "k-api-key"@ => seq![encode_utf8(config.api_key@)],
    ]
}

impl KolliderClient {
    /// A client for the given account.
    pub fn new(cfg: KolliderClientConfig) -> (client: KolliderClient)
        ensures
            client@ == cfg,
    {
        KolliderClient { config: cfg }
    }

    /// The headers of a request that was signed at `timestamp`.
    pub fn create_headers(&self, timestamp: &str, signature: &str) -> (headers: Result<
        HeaderMap<HeaderValue>,
        KolliderClientError,
    >)
        ensures
            match headers {
                Ok(h) => {
                    &&& is_header_text(signature@)
                    &&& is_header_text(timestamp@)
                    &&& is_header_text(self@.passphrase@)
                    &&& is_header_text(self@.api_key@)
                    &&& header_fields(h) == auth_fields(self@, timestamp@, signature@)
                },
                Err(e) => {
                    &&& e is InvalidHeaderValue
                    &&& !(is_header_text(signature@) && is_header_text(timestamp@)
                        && is_header_text(self@.passphrase@) && is_header_text(self@.api_key@))
                },
            },
    {
        proof {
            reveal_strlit("content-type");
            reveal_strlit("k-signature");
            reveal_strlit("k-timestamp");
            reveal_strlit("k-passphrase");
            reveal_strlit("k-api-key");
            reveal_strlit("application/json");
            lemma_visible_ascii_is_header_text("application/json"@);
            assert("k-signature"@[2] == 's' && "k-timestamp"@[2] == 't' && "k-passphrase"@[2] == 'p'
                && "content-type"@[0] == 'c');
        }
        let mut header = no_headers();
        let content_type = match header_value("application/json") {
            Ok(value) => value,
            Err(err) => return Err(KolliderClientError::InvalidHeaderValue(err)),
        };
        append_header(&mut header, "content-type", content_type);
        let signature_value = match header_value(signature) {
            Ok(value) => value,
            Err(err) => return Err(KolliderClientError::InvalidHeaderValue(err)),
        };
        append_header(&mut header, "k-signature", signature_value);
        let timestamp_value = match header_value(timestamp) {
            Ok(value) => value,
            Err(err) => return Err(KolliderClientError::InvalidHeaderValue(err)),
        };
        append_header(&mut header, "k-timestamp", timestamp_value);
        let passphrase_value = match header_value(&self.config.passphrase) {
            Ok(value) => value,
            Err(err) => return Err(KolliderClientError::InvalidHeaderValue(err)),
        };
        append_header(&mut header, "k-passphrase", passphrase_value);
        let api_key_value = match header_value(&self.config.api_key) {
            Ok(value) => value,
            Err(err) => return Err(KolliderClientError::InvalidHeaderValue(err)),
        };
        append_header(&mut header, "k-api-key", api_key_value);
        assert(header_fields(header) =~= auth_fields(self@, timestamp@, signature@));
        Ok(header)
    }

    /// Signs `pre_hash` with the key that `secretb64` holds in base64.
    pub fn generate_signature(secretb64: &str, pre_hash: &str) -> (signed: Result<
        String,
        KolliderClientError,
    >)
        requires
            byte_len(secretb64@) <= usize::MAX / 8,
            byte_len(pre_hash@) + 128 <= usize::MAX / 8,
        ensures
            match signed {
                Ok(text) => {
                    &&& base64_decoded(encode_utf8(secretb64@)) matches Some(key)
                    &&& text@ == signature(key, pre_hash@)
                    &&& is_base64_text(text@)
                    &&& text@.len() == 44
                    &&& is_padded(text@, 1)
                    &&& base64_decoded(encode_utf8(text@)) == Some(
                        hmac_sha256(key, encode_utf8(pre_hash@)),
                    )
                    &&& hmac_sha256(key, encode_utf8(pre_hash@)).len() == 32
                },
                Err(e) => e is DecodeError && base64_decoded(encode_utf8(secretb64@)) is None,
            },
    {
        let res = match decode_base64(secretb64.as_bytes()) {
            Ok(res) => res,
            Err(err) => return Err(KolliderClientError::DecodeError(err)),
        };
        let tag = sign_hmac_sha256(&res, pre_hash.as_bytes());
        Ok(encode_base64(&tag))
    }

    /// The headers of a request with the given method, path and body, signed for `timestamp`.
    pub fn signed_headers(&self, timestamp: &str, method: &str, path: &str, body: &str) -> (headers:
        Result<HeaderMap<HeaderValue>, KolliderClientError>)
        requires
            byte_len(self@.secret@) <= usize::MAX / 8,
            byte_len(signed_message(timestamp@, method@, path@, body@)) + 128 <= usize::MAX / 8,
        ensures
            match headers {
                Ok(h) => {
                    &&& account_can_sign(self@)
                    &&& is_header_text(timestamp@)
                    &&& header_fields(h) == signed_fields(
                        self@,
                        timestamp@,
                        method@,
                        path@,
                        body@,
                    )
                },
                Err(KolliderClientError::DecodeError(_)) => secret_key(self@) is None,
                Err(KolliderClientError::InvalidHeaderValue(_)) => {
                    &&& secret_key(self@) is Some
                    &&& !(account_can_sign(self@) && is_header_text(timestamp@))
                },
            },
    {
        let pre_hash = join(timestamp, method, path, body);
        let sig = match Self::generate_signature(&self.config.secret, &pre_hash) {
            Ok(sig) => sig,
            Err(err) => return Err(err),
        };
        proof {
            assert(is_visible_ascii(sig@));
            lemma_visible_ascii_is_header_text(sig@);
        }
        self.create_headers(timestamp, &sig)
    }

    /// The headers of a signed GET request that is sent now.
    pub fn create_get_headers(&self, path: &str) -> (headers: Result<
        HeaderMap<HeaderValue>,
        KolliderClientError,
    >)
        requires
            within_signing_limits(self@, path@, Seq::empty()),
        ensures
            match headers {
                Ok(h) => {
                    &&& account_can_sign(self@)
                    &&& is_signed_now(header_fields(h), self@, "GET"@, path@, Seq::empty())
                },
                Err(e) => is_signing_failure(self@, e),
            },
    {
        let timestamp = timestamp();
        proof {
            reveal_strlit("GET");
            reveal_strlit("");
            assert(""@ =~= Seq::<char>::empty());
            lemma_message_within_limits(timestamp@, "GET"@, path@, ""@);
        }
        self.signed_headers(&timestamp, "GET", path, "")
    }

    /// The headers of a signed POST request that is sent now.
    pub fn create_post_headers(&self, path: &str, body: &str) -> (headers: Result<
        HeaderMap<HeaderValue>,
        KolliderClientError,
    >)
        requires
            within_signing_limits(self@, path@, body@),
        ensures
            match headers {
                Ok(h) => {
                    &&& account_can_sign(self@)
                    &&& is_signed_now(header_fields(h), self@, "POST"@, path@, body@)
                },
                Err(e) => is_signing_failure(self@, e),
            },
    {
        let timestamp = timestamp();
        proof {
            reveal_strlit("POST");
            lemma_message_within_limits(timestamp@, "POST"@, path@, body@);
        }
        self.signed_headers(&timestamp, "POST", path, body)
    }
}

/// Whether requests can be signed for an account: its secret is base64, and its passphrase and
/// key can be sent as header values.
pub open spec fn account_can_sign(config: KolliderClientConfig) -> bool {
    &&& secret_key(config) is Some
    &&& is_header_text(config.passphrase@)
    &&& is_header_text(config.api_key@)
}

/// Whether `error` is what keeps requests for an account from being signed.
pub open spec fn is_signing_failure(
    config: KolliderClientConfig,
    error: KolliderClientError,
) -> bool {
    match error {
        KolliderClientError::DecodeError(_) => secret_key(config) is None,
        KolliderClientError::InvalidHeaderValue(_) => secret_key(config) is Some
            && !account_can_sign(config),
    }
}

/// Whether the secret, and a message with this path and body, are short enough to be signed.
pub open spec fn within_signing_limits(
    config: KolliderClientConfig,
    path: Seq<char>,
    body: Seq<char>,
) -> bool {
    &&& byte_len(config.secret@) <= usize::MAX / 8
    &&& byte_len(path) + byte_len(body) + 256 <= usize::MAX / 8
}

/// The header fields of a request that an account signs for a time.
pub open spec fn signed_fields(
    config: KolliderClientConfig,
    timestamp: Seq<char>,
    method: Seq<char>,
    path: Seq<char>,
    body: Seq<char>,
) -> Map<Seq<char>, Seq<Seq<u8>>> {
    auth_fields(
        config,
        timestamp,
        signature(secret_key(config)->0, signed_message(timestamp, method, path, body)),
    )
}

/// Whether `fields` are those of a request that an account signed for a time that the system's
/// clock gave, the time that the fields give, in the form of such a time.
pub open spec fn is_signed_now(
    fields: Map<Seq<char>, Seq<Seq<u8>>>,
    config: KolliderClientConfig,
    method: Seq<char>,
    path: Seq<char>,
    body: Seq<char>,
) -> bool {
    exists|timestamp: Seq<char>|
        is_time_of_clock(timestamp) && is_timestamp(timestamp) && is_timestamp_text(timestamp)
            && fields == #[trigger] signed_fields(config, timestamp, method, path, body)
}

/// The method of a request.
#[derive(Debug, Clone, Copy, PartialEq, Eq, Structural)]
pub enum Method {
    Get,
    Post,
}

/// A request as it is sent. The path is also the key under which requests are rate limited.
#[derive(Debug)]
pub struct ApiRequest {
    pub method: Method,
    pub path: &'static str,
    pub url: String,
    pub headers: HeaderMap<HeaderValue>,
    pub body: Option<String>,
}

/// Whether `request` is sent with this method to this path of the exchange of `config`.
pub open spec fn is_sent_to(
    request: ApiRequest,
    config: KolliderClientConfig,
    method: Method,
    path: Seq<char>,
) -> bool {
    &&& request.method == method
    &&& request.path@ == path
    &&& request.url@ == config.url@ + path
}

/// Whether `request` posts `body` to this path, signed by the account of `config`.
pub open spec fn is_signed_post(
    request: ApiRequest,
    config: KolliderClientConfig,
    path: Seq<char>,
    body: Seq<char>,
) -> bool {
    &&& is_sent_to(request, config, Method::Post, path)
    &&& request.body matches Some(sent) && sent@ == body
    &&& is_signed_now(header_fields(request.headers), config, "POST"@, path, body)
}

/// The body of a request to deposit `sats` over Lightning.
pub open spec fn deposit_body(sats: int) -> Seq<char> {
    json_object(seq![("amount"@, json_integer(sats)), ("type"@, json_quoted("Ln"@))])
}

/// The body of a request to pay out `amount` over Lightning.
pub open spec fn withdrawal_body(amount: int, payment_request: Seq<char>) -> Seq<char> {
    json_object(
        seq![
            ("amount"@, json_integer(amount)),
            ("payment_request"@, json_quoted(payment_request)),
            ("type"@, json_quoted("Ln"@)),
        ],
    )
}

/// The body of an order to sell `amount_usd` perpetual contracts at the market, settled later.
pub open spec fn order_body(amount_usd: int, leverage_percent: int) -> Seq<char> {
    json_object(order_members(amount_usd, leverage_percent))
}

/// The members of the body of an order.
pub open spec fn order_members(amount_usd: int, leverage_percent: int) -> Seq<
    (Seq<char>, Seq<char>),
> {
    seq![
        ("leverage"@, json_integer(leverage_percent)),
        ("margin_type"@, json_quoted("Isolated"@)),
        ("order_type"@, json_quoted("Market"@)),
        ("price"@, json_integer(20399)),
        ("quantity"@, json_integer(amount_usd)),
        ("settlement_type"@, json_quoted("Delayed"@)),
        ("side"@, json_quoted("Ask"@)),
        ("symbol"@, json_quoted("BTCUSD.PERP"@)),
    ]
}

/// The body of a deposit.
fn deposit_text(sats: i32) -> (body: String)
    ensures
        body@ == deposit_body(sats as int),
{
    proof {
        reveal_strlit("amount");
        reveal_strlit("type");
    }
    let mut members: Vec<(&'static str, Value)> = Vec::new();
    add_member(&mut members, "amount", integer_value(sats));
    add_member(&mut members, "type", string_value("Ln"));
    assert(member_texts(members@) =~= seq![
        ("amount"@, json_integer(sats as int)),
        ("type"@, json_quoted("Ln"@)),
    ]);
    object_text(members)
}

/// The body of a withdrawal.
fn withdrawal_text(amount: i32, payment_request: &str) -> (body: String)
    ensures
        body@ == withdrawal_body(amount as int, payment_request@),
{
    proof {
        reveal_strlit("amount");
        reveal_strlit("payment_request");
        reveal_strlit("type");
    }
    let mut members: Vec<(&'static str, Value)> = Vec::new();
    add_member(&mut members, "amount", integer_value(amount));
    add_member(&mut members, "payment_request", string_value(payment_request));
    add_member(&mut members, "type", string_value("Ln"));
    assert(member_texts(members@) =~= seq![
        ("amount"@, json_integer(amount as int)),
        ("payment_request"@, json_quoted(payment_request@)),
        ("type"@, json_quoted("Ln"@)),
    ]);
    object_text(members)
}

/// The body of an order.
fn order_text(amount_usd: i32, leverage_percent: i32) -> (body: String)
    ensures
        body@ == order_body(amount_usd as int, leverage_percent as int),
{
    proof {
        reveal_strlit("leverage");
        reveal_strlit("margin_type");
        reveal_strlit("order_type");
        reveal_strlit("price");
        reveal_strlit("quantity");
        reveal_strlit("settlement_type");
        reveal_strlit("side");
        reveal_strlit("symbol");
        reveal_with_fuel(text_before, 2);
    }
    let mut members: Vec<(&'static str, Value)> = Vec::new();
    add_member(&mut members, "leverage", integer_value(leverage_percent));
    add_member(&mut members, "margin_type", string_value("Isolated"));
    add_member(&mut members, "order_type", string_value("Market"));
    add_member(&mut members, "price", integer_value(20399));
    add_member(&mut members, "quantity", integer_value(amount_usd));
    add_member(&mut members, "settlement_type", string_value("Delayed"));
    add_member(&mut members, "side", string_value("Ask"));
    add_member(&mut members, "symbol", string_value("BTCUSD.PERP"));
    assert(member_texts(members@) =~= order_members(amount_usd as int, leverage_percent as int));
    object_text(members)
}

impl KolliderClient {
    /// The address of a path of the exchange.
    fn url_of(&self, path: &str) -> (url: String)
        ensures
            url@ == self@.url@ + path@,
    {
        self.config.url.clone().concat(path)
    }

    /// A request that posts `body` to `path`, signed for the current time.
    pub fn signed_post(&self, path: &'static str, body: String) -> (request: Result<
        ApiRequest,
        KolliderClientError,
    >)
        requires
            within_signing_limits(self@, path@, body@),
        ensures
            match request {
                Ok(r) => account_can_sign(self@) && is_signed_post(r, self@, path@, body@),
                Err(e) => is_signing_failure(self@, e),
            },
    {
        let headers = match self.create_post_headers(path, &body) {
            Ok(headers) => headers,
            Err(err) => return Err(err),
        };
        Ok(
            ApiRequest {
                method: Method::Post,
                path,
                url: self.url_of(path),
                headers,
                body: Some(body),
            },
        )
    }

    /// The request for the balances of the account.
    pub fn get_user_balances(&self) -> (request: Result<ApiRequest, KolliderClientError>)
        requires
            byte_len(self@.secret@) <= usize::MAX / 8,
        ensures
            match request {
                Ok(r) => {
                    &&& account_can_sign(self@)
                    &&& is_sent_to(r, self@, Method::Get, "/user/balances"@)
                    &&& r.body is None
                    &&& is_signed_now(
                        header_fields(r.headers),
                        self@,
                        "GET"@,
                        "/user/balances"@,
                        Seq::empty(),
                    )
                },
                Err(e) => is_signing_failure(self@, e),
            },
    {
        let path: &'static str = USER_BALANCES_PATH;
        proof {
            reveal_strlit("/user/balances");
            lemma_ascii_byte_len("/user/balances"@);
        }
        let headers = match self.create_get_headers(path) {
            Ok(headers) => headers,
            Err(err) => return Err(err),
        };
        Ok(ApiRequest { method: Method::Get, path, url: self.url_of(path), headers, body: None })
    }

    /// The request for the products of the exchange, which is not signed.
    pub fn get_products(&self) -> (request: ApiRequest)
        ensures
            is_sent_to(request, self@, Method::Get, "/market/products"@),
            request.body is None,
            header_fields(request.headers) == Map::<Seq<char>, Seq<Seq<u8>>>::empty(),
    {
        let path: &'static str = PRODUCTS_PATH;
        ApiRequest {
            method: Method::Get,
            path,
            url: self.url_of(path),
            headers: no_headers(),
            body: None,
        }
    }

    /// The request to deposit `sats` over Lightning.
    pub fn make_deposit(&self, sats: i32) -> (request: Result<ApiRequest, KolliderClientError>)
        requires
            byte_len(self@.secret@) <= usize::MAX / 8,
        ensures
            match request {
                Ok(r) => {
                    &&& account_can_sign(self@)
                    &&& is_signed_post(r, self@, "/wallet/deposit"@, deposit_body(sats as int))
                },
                Err(e) => is_signing_failure(self@, e),
            },
    {
        let path: &'static str = DEPOSIT_PATH;
        let request_body = deposit_text(sats);
        proof {
            reveal_strlit("/wallet/deposit");
            lemma_ascii_byte_len("/wallet/deposit"@);
            lemma_deposit_body_short(sats);
        }
        self.signed_post(path, request_body)
    }

    /// The request to pay `amount` out to the Lightning invoice `payment_request`.
    pub fn make_withdrawal(&self, amount: i32, payment_request: &str) -> (request: Result<
        ApiRequest,
        KolliderClientError,
    >)
        requires
            within_signing_limits(
                self@,
                "/wallet/withdrawal"@,
                withdrawal_body(amount as int, payment_request@),
            ),
        ensures
            match request {
                Ok(r) => {
                    &&& account_can_sign(self@)
                    &&& is_signed_post(
                        r,
                        self@,
                        "/wallet/withdrawal"@,
                        withdrawal_body(amount as int, payment_request@),
                    )
                },
                Err(e) => is_signing_failure(self@, e),
            },
    {
        let path: &'static str = WITHDRAWAL_PATH;
        let request_body = withdrawal_text(amount, payment_request);
        self.signed_post(path, request_body)
    }

    /// The request for a market order on the ask side over `amount_usd` contracts.
    pub fn place_order(&self, amount_usd: i32, leverage_percent: i32) -> (request: Result<
        ApiRequest,
        KolliderClientError,
    >)
        requires
            byte_len(self@.secret@) <= usize::MAX / 8,
        ensures
            match request {
                Ok(r) => {
                    &&& account_can_sign(self@)
                    &&& is_signed_post(
                        r,
                        self@,
                        "/orders"@,
                        order_body(amount_usd as int, leverage_percent as int),
                    )
                },
                Err(e) => is_signing_failure(self@, e),
            },
    {
        let path: &'static str = ORDERS_PATH;
        let request_body = order_text(amount_usd, leverage_percent);
        proof {
            reveal_strlit("/orders");
            lemma_ascii_byte_len("/orders"@);
            lemma_order_body_short(amount_usd, leverage_percent);
        }
        self.signed_post(path, request_body)
    }
}

/// For one time, method and path, two requests have the same signed message only if they have
/// the same body.
pub proof fn law_message_covers_body(
    timestamp: Seq<char>,
    method: Seq<char>,
    path: Seq<char>,
    a: Seq<char>,
    b: Seq<char>,
)
    requires
        signed_message(timestamp, method, path, a) == signed_message(timestamp, method, path, b),
    ensures
        a == b,
{
    let message = signed_message(timestamp, method, path, a);
    let start = (timestamp + method + path).len() as int;
    assert(a =~= message.skip(start));
    assert(b =~= message.skip(start));
}

/// Two deposits have the same body only if they are over the same amount.
pub proof fn law_deposit_body_injective(a: int, b: int)
    requires
        deposit_body(a) == deposit_body(b),
    ensures
        a == b,
{
    let x = seq![("amount"@, json_integer(a)), ("type"@, json_quoted("Ln"@))];
    let y = seq![("amount"@, json_integer(b)), ("type"@, json_quoted("Ln"@))];
    law_object_injective(x, y);
    assert(x[0].1 == y[0].1);
    law_integer_injective(a, b);
}

/// Two withdrawals have the same body only if they pay the same amount to the same invoice.
pub proof fn law_withdrawal_body_injective(a: int, b: int, a_to: Seq<char>, b_to: Seq<char>)
    requires
        withdrawal_body(a, a_to) == withdrawal_body(b, b_to),
    ensures
        a == b,
        a_to == b_to,
{
    let x = seq![
        ("amount"@, json_integer(a)),
        ("payment_request"@, json_quoted(a_to)),
        ("type"@, json_quoted("Ln"@)),
    ];
    let y = seq![
        ("amount"@, json_integer(b)),
        ("payment_request"@, json_quoted(b_to)),
        ("type"@, json_quoted("Ln"@)),
    ];
    law_object_injective(x, y);
    assert(x[0].1 == y[0].1);
    assert(x[1].1 == y[1].1);
    law_integer_injective(a, b);
    law_quoted_injective(a_to, b_to, Seq::empty(), Seq::empty());
}

/// Two orders have the same body only if they have the same size and leverage.
pub proof fn law_order_body_injective(a: int, b: int, a_leverage: int, b_leverage: int)
    requires
        order_body(a, a_leverage) == order_body(b, b_leverage),
    ensures
        a == b,
        a_leverage == b_leverage,
{
    let x = order_members(a, a_leverage);
    let y = order_members(b, b_leverage);
    law_object_injective(x, y);
    assert(x[0].1 == y[0].1);
    assert(x[4].1 == y[4].1);
    law_integer_injective(a, b);
    law_integer_injective(a_leverage, b_leverage);
}

/// The body of a deposit is short.
proof fn lemma_deposit_body_short(sats: i32)
    ensures
        byte_len(deposit_body(sats as int)) <= 10_000,
{
    reveal_strlit("amount");
    reveal_strlit("type");
    reveal_strlit("Ln");
    lemma_integer_short(sats as int);
    lemma_quoted_short("Ln"@, 2);
    lemma_object_short(
        seq![("amount"@, json_integer(sats as int)), ("type"@, json_quoted("Ln"@))],
    );
    lemma_ascii_byte_len(deposit_body(sats as int));
}

/// The body of an order is short.
proof fn lemma_order_body_short(amount_usd: i32, leverage_percent: i32)
    ensures
        byte_len(order_body(amount_usd as int, leverage_percent as int)) <= 10_000,
{
    reveal_strlit("leverage");
    reveal_strlit("margin_type");
    reveal_strlit("order_type");
    reveal_strlit("price");
    reveal_strlit("quantity");
    reveal_strlit("settlement_type");
    reveal_strlit("side");
    reveal_strlit("symbol");
    reveal_strlit("Isolated");
    reveal_strlit("Market");
    reveal_strlit("Delayed");
    reveal_strlit("Ask");
    reveal_strlit("BTCUSD.PERP");
    lemma_integer_short(amount_usd as int);
    lemma_integer_short(leverage_percent as int);
    lemma_integer_short(20399);
    lemma_quoted_short("Isolated"@, 11);
    lemma_quoted_short("Market"@, 11);
    lemma_quoted_short("Delayed"@, 11);
    lemma_quoted_short("Ask"@, 11);
    lemma_quoted_short("BTCUSD.PERP"@, 11);
    lemma_object_short(order_members(amount_usd as int, leverage_percent as int));
    lemma_ascii_byte_len(order_body(amount_usd as int, leverage_percent as int));
}

/// A message with the current time is short enough where the path and the body are.
proof fn lemma_message_within_limits(
    timestamp: Seq<char>,
    method: Seq<char>,
    path: Seq<char>,
    body: Seq<char>,
)
    requires
        is_timestamp_text(timestamp),
        is_ascii_chars(method),
        method.len() <= 8,
        byte_len(path) + byte_len(body) + 256 <= usize::MAX / 8,
    ensures
        is_header_text(timestamp),
        byte_len(signed_message(timestamp, method, path, body)) + 128 <= usize::MAX / 8,
{
    assert(is_visible_ascii(timestamp));
    lemma_visible_ascii_is_header_text(timestamp);
    lemma_ascii_byte_len(timestamp);
    lemma_ascii_byte_len(method);
    lemma_encode_concat(timestamp, method);
    lemma_encode_concat(timestamp + method, path);
    lemma_encode_concat(timestamp + method + path, body);
}

} // verus!
