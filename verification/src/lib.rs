//! Pricing of US dollars against bitcoin, and the exchange client behind it.

pub mod client;
pub mod client_laws;
pub mod clock;
pub mod currency;
pub mod decimal;
pub mod headers;
pub mod json;
pub mod json_reader;
pub mod mix_laws;
pub mod price_app;
pub mod price_feed;
pub mod price_mixer;
pub mod quote_laws;
pub mod service_laws;
pub mod signing;
pub mod text;
