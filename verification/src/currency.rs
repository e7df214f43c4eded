//! Amounts of money.

use vstd::prelude::*;

use crate::decimal::{ceil_digits, floor_digits, Decimal};

verus! {

/// An amount of US cents.
#[derive(Debug, Clone, Copy)]
pub struct UsdCents {
    inner: Decimal,
}

/// An amount of satoshis.
#[derive(Debug, Clone, Copy)]
pub struct Sats {
    inner: Decimal,
}

impl View for UsdCents {
    type V = Decimal;

    closed spec fn view(&self) -> Decimal {
        self.inner
    }
}

impl View for Sats {
    type V = Decimal;

    closed spec fn view(&self) -> Decimal {
        self.inner
    }
}

impl UsdCents {
    /// The amount with this number of cents.
    pub fn from_decimal(inner: Decimal) -> (amount: UsdCents)
        ensures
            amount@ == inner,
    {
        UsdCents { inner }
    }

    /// The number of cents.
    pub fn amount(&self) -> (number: &Decimal)
        ensures
            *number == self@,
    {
        &self.inner
    }

    /// The amount, rounded down to whole cents.
    pub fn floor(self) -> (whole: UsdCents)
        ensures
            whole@.digits() == floor_digits(self@),
            whole@.places() == 0,
    {
        UsdCents { inner: self.inner.floor() }
    }

    /// The amount, rounded up to whole cents.
    pub fn ceil(self) -> (whole: UsdCents)
        ensures
            whole@.digits() == ceil_digits(self@),
            whole@.places() == 0,
    {
        UsdCents { inner: self.inner.ceil() }
    }
}

impl Sats {
    /// The amount with this number of satoshis.
    pub fn from_decimal(inner: Decimal) -> (amount: Sats)
        ensures
            amount@ == inner,
    {
        Sats { inner }
    }

    /// The number of satoshis.
    pub fn amount(&self) -> (number: &Decimal)
        ensures
            *number == self@,
    {
        &self.inner
    }

    /// The amount, rounded down to whole satoshis.
    pub fn floor(self) -> (whole: Sats)
        ensures
            whole@.digits() == floor_digits(self@),
            whole@.places() == 0,
    {
        Sats { inner: self.inner.floor() }
    }

    /// The amount, rounded up to whole satoshis.
    pub fn ceil(self) -> (whole: Sats)
        ensures
            whole@.digits() == ceil_digits(self@),
            whole@.places() == 0,
    {
        Sats { inner: self.inner.ceil() }
    }
}

/// One side of a market, which converts amounts of any volume.
pub trait VolumePicker {
    /// What an amount of satoshis is worth.
    fn cents_from_sats(&self, sats: Sats) -> UsdCents;

    /// What an amount of cents is worth.
    fn sats_from_cents(&self, cents: UsdCents) -> Sats;
}

} // verus!
