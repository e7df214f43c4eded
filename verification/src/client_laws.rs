//! What the exchange is sent.

use reqwest::header::{HeaderMap, HeaderValue};
use vstd::prelude::*;
use vstd::utf8::encode_utf8;

use crate::client::{
    auth_fields, is_signed_now, signed_fields, signed_message, ApiRequest, KolliderClient,
    KolliderClientConfig, KolliderClientError, Method,
};
use crate::clock::{
    is_time_of_clock, is_timestamp, is_timestamp_text, lemma_time_of_clock, rfc3339_millis, utc_now,
};
use crate::headers::header_fields;
use crate::json::{json_integer, json_quoted};
use crate::json_reader::{lemma_object_is_read, read_object, Scalar};
use crate::signing::{base64_decoded, base64_encoded, hmac_sha256};

verus! {

/// The header fields of a signed request, one by one.
proof fn lemma_auth_fields(config: KolliderClientConfig, timestamp: Seq<char>, signature: Seq<char>)
    ensures
        ({
            let fields = auth_fields(config, timestamp, signature);
            &&& fields.dom() == set![
                "content-type"@,
                "k-signature"@,
                "k-timestamp"@,
                "k-passphrase"@,
                "k-api-key"@,
            ]
            &&& fields["content-type"@] == seq![encode_utf8("application/json"@)]
            &&& fields["k-signature"@] == seq![encode_utf8(signature)]
            &&& fields["k-timestamp"@] == seq![encode_utf8(timestamp)]
            &&& fields["k-passphrase"@] == seq![encode_utf8(config.passphrase@)]
            &&& fields["k-api-key"@] == seq![encode_utf8(config.api_key@)]
        }),
{
    reveal_strlit("content-type");
    reveal_strlit("k-signature");
    reveal_strlit("k-timestamp");
    reveal_strlit("k-passphrase");
    reveal_strlit("k-api-key");
    assert("k-signature"@[2] == 's' && "k-timestamp"@[2] == 't' && "k-passphrase"@[2] == 'p'
        && "k-api-key"@[2] == 'a' && "content-type"@[2] == 'n');
    assert(auth_fields(config, timestamp, signature).dom() =~= set![
        "content-type"@,
        "k-signature"@,
        "k-timestamp"@,
        "k-passphrase"@,
        "k-api-key"@,
    ]);
}

/// The header fields of a request that is signed for the time of the clock.
proof fn lemma_signed_now(
    client: KolliderClient,
    headers: HeaderMap<HeaderValue>,
    method: Seq<char>,
    path: Seq<char>,
    body: Seq<char>,
)
    requires
        is_signed_now(header_fields(headers), client@, method, path, body),
    ensures
        exists|secs: i64, nanos: u32| #[trigger]
            call_ensures(utc_now, (), (secs, nanos)) && ({
                let time = rfc3339_millis(secs as int, nanos as int);
                let key = base64_decoded(encode_utf8(client@.secret@))->0;
                let tag = hmac_sha256(key, encode_utf8(time + method + path + body));
                let fields = header_fields(headers);
                &&& fields.dom() == set![
                    "content-type"@,
                    "k-signature"@,
                    "k-timestamp"@,
                    "k-passphrase"@,
                    "k-api-key"@,
                ]
                &&& fields["content-type"@] == seq![encode_utf8("application/json"@)]
                &&& fields["k-signature"@] == seq![encode_utf8(base64_encoded(tag))]
                &&& fields["k-timestamp"@] == seq![encode_utf8(time)]
                &&& fields["k-passphrase"@] == seq![encode_utf8(client@.passphrase@)]
                &&& fields["k-api-key"@] == seq![encode_utf8(client@.api_key@)]
            }),
{
    let time = choose|timestamp: Seq<char>|
        is_time_of_clock(timestamp) && is_timestamp(timestamp) && is_timestamp_text(timestamp)
            && header_fields(headers) == #[trigger] signed_fields(
            client@,
            timestamp,
            method,
            path,
            body,
        );
    lemma_time_of_clock(time);
    let (secs, nanos) = choose|secs: i64, nanos: u32| #[trigger]
        call_ensures(utc_now, (), (secs, nanos)) && time == rfc3339_millis(
            secs as int,
            nanos as int,
        );
    let key = base64_decoded(encode_utf8(client@.secret@))->0;
    lemma_auth_fields(
        client@,
        time,
        base64_encoded(hmac_sha256(key, encode_utf8(signed_message(time, method, path, body)))),
    );
    assert(call_ensures(utc_now, (), (secs, nanos)));
}

/// A signature is the base64 text of the HMAC-SHA256 tag of the message, under the key that the
/// secret holds in base64. There is none if and only if the secret is not base64.
pub proof fn law_signature_is_the_tag_of_the_message(
    secret: &str,
    message: &str,
    signed: Result<String, KolliderClientError>,
)
    requires
        call_ensures(KolliderClient::generate_signature, (secret, message), signed),
    ensures
        signed is Ok <==> base64_decoded(encode_utf8(secret@)) is Some,
        signed matches Ok(text) ==> text@ == base64_encoded(
            hmac_sha256(base64_decoded(encode_utf8(secret@))->0, encode_utf8(message@)),
        ) && base64_decoded(encode_utf8(text@)) == Some(
            hmac_sha256(base64_decoded(encode_utf8(secret@))->0, encode_utf8(message@)),
        ),
        signed matches Err(error) ==> error is DecodeError,
{
}

/// Headers hold the given time and signature, the account's key and passphrase, and the kind of
/// content, and nothing else. They are refused if and only if one of the four texts has a control
/// character other than a tab.
pub proof fn law_headers_hold_the_account(
    client: KolliderClient,
    timestamp: &str,
    signature: &str,
    headers: Result<HeaderMap<HeaderValue>, KolliderClientError>,
)
    requires
        call_ensures(KolliderClient::create_headers, (&client, timestamp, signature), headers),
    ensures
        ({
            let plain = |text: Seq<char>|
                forall|i: int|
                    0 <= i < encode_utf8(text).len() ==> {
                        let b = #[trigger] encode_utf8(text)[i];
                        b == 9 || (b >= 32 && b != 127)
                    };
            headers is Ok <==> plain(timestamp@) && plain(signature@) && plain(
                client@.passphrase@,
            ) && plain(client@.api_key@)
        }),
        headers matches Err(error) ==> error is InvalidHeaderValue,
        headers matches Ok(h) ==> ({
            let fields = header_fields(h);
            &&& fields.dom() == set![
                "content-type"@,
                "k-signature"@,
                "k-timestamp"@,
                "k-passphrase"@,
                "k-api-key"@,
            ]
            &&& fields["content-type"@] == seq![encode_utf8("application/json"@)]
            &&& fields["k-signature"@] == seq![encode_utf8(signature@)]
            &&& fields["k-timestamp"@] == seq![encode_utf8(timestamp@)]
            &&& fields["k-passphrase"@] == seq![encode_utf8(client@.passphrase@)]
            &&& fields["k-api-key"@] == seq![encode_utf8(client@.api_key@)]
        }),
{
    lemma_auth_fields(client@, timestamp@, signature@);
}

/// The headers of a request carry a signature over the given time, the method, the path and the
/// body, in this order.
pub proof fn law_signed_headers_cover_the_request(
    client: KolliderClient,
    timestamp: &str,
    method: &str,
    path: &str,
    body: &str,
    headers: Result<HeaderMap<HeaderValue>, KolliderClientError>,
)
    requires
        call_ensures(
            KolliderClient::signed_headers,
            (&client, timestamp, method, path, body),
            headers,
        ),
        headers is Ok,
    ensures
        base64_decoded(encode_utf8(client@.secret@)) is Some,
        ({
            let key = base64_decoded(encode_utf8(client@.secret@))->0;
            let tag = hmac_sha256(key, encode_utf8(timestamp@ + method@ + path@ + body@));
            let fields = header_fields(headers->Ok_0);
            &&& fields.dom() == set![
                "content-type"@,
                "k-signature"@,
                "k-timestamp"@,
                "k-passphrase"@,
                "k-api-key"@,
            ]
            &&& fields["content-type"@] == seq![encode_utf8("application/json"@)]
            &&& fields["k-signature"@] == seq![encode_utf8(base64_encoded(tag))]
            &&& fields["k-timestamp"@] == seq![encode_utf8(timestamp@)]
            &&& fields["k-passphrase"@] == seq![encode_utf8(client@.passphrase@)]
            &&& fields["k-api-key"@] == seq![encode_utf8(client@.api_key@)]
        }),
{
    let key = base64_decoded(encode_utf8(client@.secret@))->0;
    lemma_auth_fields(
        client@,
        timestamp@,
        base64_encoded(
            hmac_sha256(
                key,
                encode_utf8(signed_message(timestamp@, method@, path@, body@)),
            ),
        ),
    );
}

/// A request cannot be signed if and only if the account's secret is not base64, or its passphrase
/// or key has a control character other than a tab. The secret is looked at first.
pub proof fn law_signing_fails_only_for_a_bad_account(
    client: KolliderClient,
    path: &str,
    body: &str,
    headers: Result<HeaderMap<HeaderValue>, KolliderClientError>,
)
    requires
        call_ensures(KolliderClient::create_post_headers, (&client, path, body), headers)
            || call_ensures(KolliderClient::create_get_headers, (&client, path), headers),
    ensures
        ({
            let plain = |text: Seq<char>|
                forall|i: int|
                    0 <= i < encode_utf8(text).len() ==> {
                        let b = #[trigger] encode_utf8(text)[i];
                        b == 9 || (b >= 32 && b != 127)
                    };
            let secret = base64_decoded(encode_utf8(client@.secret@));
            &&& headers is Ok <==> secret is Some && plain(client@.passphrase@) && plain(
                client@.api_key@,
            )
            &&& headers matches Err(error) ==> (error is DecodeError <==> secret is None)
        }),
{
}

/// The headers of a request that is sent now carry the time that the clock gave, and a signature
/// over that time, the method and the path.
pub(crate) proof fn law_get_headers_are_signed_for_the_time_of_the_clock(
    client: KolliderClient,
    path: &str,
    headers: Result<HeaderMap<HeaderValue>, KolliderClientError>,
)
    requires
        call_ensures(KolliderClient::create_get_headers, (&client, path), headers),
        headers is Ok,
    ensures
        exists|secs: i64, nanos: u32| #[trigger]
            call_ensures(utc_now, (), (secs, nanos)) && ({
                let time = rfc3339_millis(secs as int, nanos as int);
                let key = base64_decoded(encode_utf8(client@.secret@))->0;
                let tag = hmac_sha256(key, encode_utf8(time + "GET"@ + path@));
                let fields = header_fields(headers->Ok_0);
                &&& fields.dom() == set![
                    "content-type"@,
                    "k-signature"@,
                    "k-timestamp"@,
                    "k-passphrase"@,
                    "k-api-key"@,
                ]
                &&& fields["content-type"@] == seq![encode_utf8("application/json"@)]
                &&& fields["k-signature"@] == seq![encode_utf8(base64_encoded(tag))]
                &&& fields["k-timestamp"@] == seq![encode_utf8(time)]
                &&& fields["k-passphrase"@] == seq![encode_utf8(client@.passphrase@)]
                &&& fields["k-api-key"@] == seq![encode_utf8(client@.api_key@)]
            }),
{
    lemma_signed_now(client, headers->Ok_0, "GET"@, path@, Seq::empty());
    assert forall|time: Seq<char>| #[trigger] (time + "GET"@ + path@) + Seq::<char>::empty()
        == time + "GET"@ + path@ by {
        assert((time + "GET"@ + path@) + Seq::<char>::empty() =~= time + "GET"@ + path@);
    }
}

/// The headers of a request that is sent now carry the time that the clock gave, and a signature
/// over that time, the method, the path and the body.
pub(crate) proof fn law_post_headers_are_signed_for_the_time_of_the_clock(
    client: KolliderClient,
    path: &str,
    body: &str,
    headers: Result<HeaderMap<HeaderValue>, KolliderClientError>,
)
    requires
        call_ensures(KolliderClient::create_post_headers, (&client, path, body), headers),
        headers is Ok,
    ensures
        exists|secs: i64, nanos: u32| #[trigger]
            call_ensures(utc_now, (), (secs, nanos)) && ({
                let time = rfc3339_millis(secs as int, nanos as int);
                let key = base64_decoded(encode_utf8(client@.secret@))->0;
                let tag = hmac_sha256(key, encode_utf8(time + "POST"@ + path@ + body@));
                let fields = header_fields(headers->Ok_0);
                &&& fields.dom() == set![
                    "content-type"@,
                    "k-signature"@,
                    "k-timestamp"@,
                    "k-passphrase"@,
                    "k-api-key"@,
                ]
                &&& fields["content-type"@] == seq![encode_utf8("application/json"@)]
                &&& fields["k-signature"@] == seq![encode_utf8(base64_encoded(tag))]
                &&& fields["k-timestamp"@] == seq![encode_utf8(time)]
                &&& fields["k-passphrase"@] == seq![encode_utf8(client@.passphrase@)]
                &&& fields["k-api-key"@] == seq![encode_utf8(client@.api_key@)]
            }),
{
    lemma_signed_now(client, headers->Ok_0, "POST"@, path@, body@);
}

/// The products are asked for with a plain GET request to their path, which carries no header.
pub proof fn law_products_are_asked_for_without_signature(
    client: KolliderClient,
    request: ApiRequest,
)
    requires
        call_ensures(KolliderClient::get_products, (&client,), request),
    ensures
        request.method == Method::Get,
        request.path@ == "/market/products"@,
        request.url@ == client@.url@ + "/market/products"@,
        request.body is None,
        header_fields(request.headers).dom() == Set::<Seq<char>>::empty(),
{
    assert(header_fields(request.headers).dom() =~= Set::<Seq<char>>::empty());
}

/// The balances are asked for with a GET request to their path, without a body, signed for the
/// time that the clock gave.
pub(crate) proof fn law_balances_are_asked_for_at_the_time_of_the_clock(
    client: KolliderClient,
    request: Result<ApiRequest, KolliderClientError>,
)
    requires
        call_ensures(KolliderClient::get_user_balances, (&client,), request),
        request is Ok,
    ensures
        ({
            let sent = request->Ok_0;
            &&& sent.method == Method::Get
            &&& sent.path@ == "/user/balances"@
            &&& sent.url@ == client@.url@ + "/user/balances"@
            &&& sent.body is None
            &&& base64_decoded(encode_utf8(client@.secret@)) is Some
            &&& exists|secs: i64, nanos: u32| #[trigger]
                call_ensures(utc_now, (), (secs, nanos)) && ({
                    let time = rfc3339_millis(secs as int, nanos as int);
                    let key = base64_decoded(encode_utf8(client@.secret@))->0;
                    let tag = hmac_sha256(key, encode_utf8(time + "GET"@ + "/user/balances"@));
                    let fields = header_fields(sent.headers);
                    &&& fields.dom() == set![
                        "content-type"@,
                        "k-signature"@,
                        "k-timestamp"@,
                        "k-passphrase"@,
                        "k-api-key"@,
                    ]
                    &&& fields["content-type"@] == seq![encode_utf8("application/json"@)]
                    &&& fields["k-signature"@] == seq![encode_utf8(base64_encoded(tag))]
                    &&& fields["k-timestamp"@] == seq![encode_utf8(time)]
                    &&& fields["k-passphrase"@] == seq![encode_utf8(client@.passphrase@)]
                    &&& fields["k-api-key"@] == seq![encode_utf8(client@.api_key@)]
                })
        }),
{
    lemma_signed_now(client, request->Ok_0.headers, "GET"@, "/user/balances"@, Seq::empty());
    assert forall|time: Seq<char>| #[trigger] (time + "GET"@ + "/user/balances"@)
        + Seq::<char>::empty() == time + "GET"@ + "/user/balances"@ by {
        assert((time + "GET"@ + "/user/balances"@) + Seq::<char>::empty() =~= time + "GET"@
            + "/user/balances"@);
    }
}

/// A deposit is posted to its path. Read as JSON, the body says the very amount that was asked for,
/// over Lightning. It is signed for the time that the clock gave.
pub(crate) proof fn law_deposit_says_its_amount(
    client: KolliderClient,
    sats: i32,
    request: Result<ApiRequest, KolliderClientError>,
)
    requires
        call_ensures(KolliderClient::make_deposit, (&client, sats), request),
        request is Ok,
    ensures
        ({
            let sent = request->Ok_0;
            let body = sent.body->0@;
            &&& sent.method == Method::Post
            &&& sent.path@ == "/wallet/deposit"@
            &&& sent.url@ == client@.url@ + "/wallet/deposit"@
            &&& sent.body is Some
            &&& read_object(body) == Some(
                seq![
                    ("amount"@, Scalar::Number(sats as int)),
                    ("type"@, Scalar::Text("Ln"@)),
                ],
            )
            &&& base64_decoded(encode_utf8(client@.secret@)) is Some
            &&& exists|secs: i64, nanos: u32| #[trigger]
                call_ensures(utc_now, (), (secs, nanos)) && ({
                    let time = rfc3339_millis(secs as int, nanos as int);
                    let key = base64_decoded(encode_utf8(client@.secret@))->0;
                    let tag = hmac_sha256(key, encode_utf8(time + "POST"@ + "/wallet/deposit"@ + body));
                    let fields = header_fields(sent.headers);
                    &&& fields.dom() == set![
                        "content-type"@,
                        "k-signature"@,
                        "k-timestamp"@,
                        "k-passphrase"@,
                        "k-api-key"@,
                    ]
                    &&& fields["content-type"@] == seq![encode_utf8("application/json"@)]
                    &&& fields["k-signature"@] == seq![encode_utf8(base64_encoded(tag))]
                    &&& fields["k-timestamp"@] == seq![encode_utf8(time)]
                    &&& fields["k-passphrase"@] == seq![encode_utf8(client@.passphrase@)]
                    &&& fields["k-api-key"@] == seq![encode_utf8(client@.api_key@)]
                })
        }),
{
    let values = seq![
        ("amount"@, Scalar::Number(sats as int)),
        ("type"@, Scalar::Text("Ln"@)),
    ];
    let members = seq![
        ("amount"@, json_integer(sats as int)),
        ("type"@, json_quoted("Ln"@)),
    ];
    lemma_object_is_read(members, values);
    lemma_signed_now(
        client,
        request->Ok_0.headers,
        "POST"@,
        "/wallet/deposit"@,
        request->Ok_0.body->0@,
    );
}

/// A withdrawal is posted to its path. Read as JSON, the body says the very amount and the very
/// invoice that were asked for, over Lightning. It is signed for the time that the clock gave.
pub(crate) proof fn law_withdrawal_says_its_amount_and_invoice(
    client: KolliderClient,
    amount: i32,
    payment_request: &str,
    request: Result<ApiRequest, KolliderClientError>,
)
    requires
        call_ensures(KolliderClient::make_withdrawal, (&client, amount, payment_request), request),
        request is Ok,
    ensures
        ({
            let sent = request->Ok_0;
            let body = sent.body->0@;
            &&& sent.method == Method::Post
            &&& sent.path@ == "/wallet/withdrawal"@
            &&& sent.url@ == client@.url@ + "/wallet/withdrawal"@
            &&& sent.body is Some
            &&& read_object(body) == Some(
                seq![
                    ("amount"@, Scalar::Number(amount as int)),
                    ("payment_request"@, Scalar::Text(payment_request@)),
                    ("type"@, Scalar::Text("Ln"@)),
                ],
            )
            &&& base64_decoded(encode_utf8(client@.secret@)) is Some
            &&& exists|secs: i64, nanos: u32| #[trigger]
                call_ensures(utc_now, (), (secs, nanos)) && ({
                    let time = rfc3339_millis(secs as int, nanos as int);
                    let key = base64_decoded(encode_utf8(client@.secret@))->0;
                    let tag = hmac_sha256(key, encode_utf8(time + "POST"@ + "/wallet/withdrawal"@ + body));
                    let fields = header_fields(sent.headers);
                    &&& fields.dom() == set![
                        "content-type"@,
                        "k-signature"@,
                        "k-timestamp"@,
                        "k-passphrase"@,
                        "k-api-key"@,
                    ]
                    &&& fields["content-type"@] == seq![encode_utf8("application/json"@)]
                    &&& fields["k-signature"@] == seq![encode_utf8(base64_encoded(tag))]
                    &&& fields["k-timestamp"@] == seq![encode_utf8(time)]
                    &&& fields["k-passphrase"@] == seq![encode_utf8(client@.passphrase@)]
                    &&& fields["k-api-key"@] == seq![encode_utf8(client@.api_key@)]
                })
        }),
{
    let values = seq![
        ("amount"@, Scalar::Number(amount as int)),
        ("payment_request"@, Scalar::Text(payment_request@)),
        ("type"@, Scalar::Text("Ln"@)),
    ];
    let members = seq![
        ("amount"@, json_integer(amount as int)),
        ("payment_request"@, json_quoted(payment_request@)),
        ("type"@, json_quoted("Ln"@)),
    ];
    lemma_object_is_read(members, values);
    lemma_signed_now(
        client,
        request->Ok_0.headers,
        "POST"@,
        "/wallet/withdrawal"@,
        request->Ok_0.body->0@,
    );
}

/// An order is posted to its path. Read as JSON, the body says the very size and leverage that were
/// asked for, on the ask side, and otherwise the same whatever they are. It is signed for the time
/// that the clock gave.
pub(crate) proof fn law_order_says_its_size_and_side(
    client: KolliderClient,
    amount_usd: i32,
    leverage_percent: i32,
    request: Result<ApiRequest, KolliderClientError>,
)
    requires
        call_ensures(KolliderClient::place_order, (&client, amount_usd, leverage_percent), request),
        request is Ok,
    ensures
        ({
            let sent = request->Ok_0;
            let body = sent.body->0@;
            &&& sent.method == Method::Post
            &&& sent.path@ == "/orders"@
            &&& sent.url@ == client@.url@ + "/orders"@
            &&& sent.body is Some
            &&& read_object(body) == Some(
                seq![
                    ("leverage"@, Scalar::Number(leverage_percent as int)),
                    ("margin_type"@, Scalar::Text("Isolated"@)),
                    ("order_type"@, Scalar::Text("Market"@)),
                    ("price"@, Scalar::Number(20399)),
                    ("quantity"@, Scalar::Number(amount_usd as int)),
                    ("settlement_type"@, Scalar::Text("Delayed"@)),
                    ("side"@, Scalar::Text("Ask"@)),
                    ("symbol"@, Scalar::Text("BTCUSD.PERP"@)),
                ],
            )
            &&& base64_decoded(encode_utf8(client@.secret@)) is Some
            &&& exists|secs: i64, nanos: u32| #[trigger]
                call_ensures(utc_now, (), (secs, nanos)) && ({
                    let time = rfc3339_millis(secs as int, nanos as int);
                    let key = base64_decoded(encode_utf8(client@.secret@))->0;
                    let tag = hmac_sha256(key, encode_utf8(time + "POST"@ + "/orders"@ + body));
                    let fields = header_fields(sent.headers);
                    &&& fields.dom() == set![
                        "content-type"@,
                        "k-signature"@,
                        "k-timestamp"@,
                        "k-passphrase"@,
                        "k-api-key"@,
                    ]
                    &&& fields["content-type"@] == seq![encode_utf8("application/json"@)]
                    &&& fields["k-signature"@] == seq![encode_utf8(base64_encoded(tag))]
                    &&& fields["k-timestamp"@] == seq![encode_utf8(time)]
                    &&& fields["k-passphrase"@] == seq![encode_utf8(client@.passphrase@)]
                    &&& fields["k-api-key"@] == seq![encode_utf8(client@.api_key@)]
                })
        }),
{
    let values = seq![
        ("leverage"@, Scalar::Number(leverage_percent as int)),
        ("margin_type"@, Scalar::Text("Isolated"@)),
        ("order_type"@, Scalar::Text("Market"@)),
        ("price"@, Scalar::Number(20399)),
        ("quantity"@, Scalar::Number(amount_usd as int)),
        ("settlement_type"@, Scalar::Text("Delayed"@)),
        ("side"@, Scalar::Text("Ask"@)),
        ("symbol"@, Scalar::Text("BTCUSD.PERP"@)),
    ];
    let members = seq![
        ("leverage"@, json_integer(leverage_percent as int)),
        ("margin_type"@, json_quoted("Isolated"@)),
        ("order_type"@, json_quoted("Market"@)),
        ("price"@, json_integer(20399)),
        ("quantity"@, json_integer(amount_usd as int)),
        ("settlement_type"@, json_quoted("Delayed"@)),
        ("side"@, json_quoted("Ask"@)),
        ("symbol"@, json_quoted("BTCUSD.PERP"@)),
    ];
    lemma_object_is_read(members, values);
    lemma_signed_now(
        client,
        request->Ok_0.headers,
        "POST"@,
        "/orders"@,
        request->Ok_0.body->0@,
    );
}

/// A posted body is sent as it is, to the given path, signed for the time that the clock gave.
pub(crate) proof fn law_post_sends_what_it_signs(
    client: KolliderClient,
    path: &'static str,
    body: String,
    request: Result<ApiRequest, KolliderClientError>,
)
    requires
        call_ensures(KolliderClient::signed_post, (&client, path, body), request),
        request is Ok,
    ensures
        ({
            let sent = request->Ok_0;
            &&& sent.method == Method::Post
            &&& sent.path@ == path@
            &&& sent.url@ == client@.url@ + path@
            &&& sent.body is Some
            &&& sent.body->0@ == body@
            &&& exists|secs: i64, nanos: u32| #[trigger]
                call_ensures(utc_now, (), (secs, nanos)) && ({
                    let time = rfc3339_millis(secs as int, nanos as int);
                    let key = base64_decoded(encode_utf8(client@.secret@))->0;
                    let tag = hmac_sha256(key, encode_utf8(time + "POST"@ + path@ + body@));
                    let fields = header_fields(sent.headers);
                    &&& fields.dom() == set![
                        "content-type"@,
                        "k-signature"@,
                        "k-timestamp"@,
                        "k-passphrase"@,
                        "k-api-key"@,
                    ]
                    &&& fields["content-type"@] == seq![encode_utf8("application/json"@)]
                    &&& fields["k-signature"@] == seq![encode_utf8(base64_encoded(tag))]
                    &&& fields["k-timestamp"@] == seq![encode_utf8(time)]
                    &&& fields["k-passphrase"@] == seq![encode_utf8(client@.passphrase@)]
                    &&& fields["k-api-key"@] == seq![encode_utf8(client@.api_key@)]
                })
        }),
{
    lemma_signed_now(client, request->Ok_0.headers, "POST"@, path@, body@);
}

} // verus!
