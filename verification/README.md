# price_server

A verified library behind a service that quotes the price of satoshis in US cents.

- `src/` holds the library. `client` makes signed requests to the Kollider exchange, on top of
  `headers`, `json`, `signing`, `clock` and `text`. `price_feed` makes the subscription to its
  stream of prices. `price_mixer` mixes the prices of several exchanges by weight, and `price_app`
  makes quotes of the mix, with fees and rounding. `mix_laws` states what holds of every mix.
  `decimal` and `currency` hold the numbers.
- `app/` sends the requests, holds the connections and runs the service.
- `tests/` checks the library on values.
