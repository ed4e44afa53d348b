//! Trading pairs and their fixed-point precision.
use vstd::prelude::*;
use vstd::arithmetic::power::pow;
use crate::text::{push_char, push_str};

verus! {

/// A trading pair such as PEP/USDT.
#[derive(Debug, PartialEq, Eq, Hash)]
pub struct MarketId {
    pub base: String,
    pub quote: String,
}

impl Clone for MarketId {
    fn clone(&self) -> (r: Self)
        ensures
            r@ == self@,
    {
        MarketId { base: self.base.clone(), quote: self.quote.clone() }
    }
}

impl View for MarketId {
    type V = (Seq<char>, Seq<char>);

    open spec fn view(&self) -> (Seq<char>, Seq<char>) {
        (self.base@, self.quote@)
    }
}

impl MarketId {
    pub fn new(base: &str, quote: &str) -> (r: Self)
        ensures
            r@ == (base@, quote@),
    {
        MarketId { base: base.to_string(), quote: quote.to_string() }
    }

    /// `BASE/QUOTE`.
    pub fn symbol(&self) -> (r: String)
        ensures
            r@ == self.base@.push('/') + self.quote@,
    {
        let mut out = self.base.clone();
        push_char(&mut out, '/');
        push_str(&mut out, self.quote.as_str());
        out
    }

    /// Whether two pairs name the same base and quote.
    pub fn same_as(&self, other: &MarketId) -> (r: bool)
        ensures
            r == (self@ == other@),
    {
        self.base.eq(&other.base) && self.quote.eq(&other.quote)
    }
}

#[derive(Debug, Clone, Copy, PartialEq, Eq, Structural)]
pub enum MarketStatus {
    Active,
    Suspended,
    Offline,
}

/// A market with its increments and decimal scales.
#[derive(Debug)]
pub struct Market {
    pub id: MarketId,
    pub status: MarketStatus,
    /// Minimum price increment in fixed-point units.
    pub tick_size: u64,
    /// Minimum quantity increment in fixed-point units.
    pub lot_size: u64,
    /// Number of decimal places used to represent prices.
    pub price_scale: u32,
    /// Number of decimal places used to represent quantities.
    pub quantity_scale: u32,
}

/// `10^scale`, or `u64::MAX` where that does not fit.
pub open spec fn saturating_ten_pow(scale: u32) -> int {
    if pow(10, scale as nat) > u64::MAX { u64::MAX as int } else { pow(10, scale as nat) }
}

impl Market {
    /// An active market with unit increments and integer scales.
    pub fn new(base: &str, quote: &str) -> (r: Self)
        ensures
            r.id@ == (base@, quote@),
            r.status == MarketStatus::Active,
            r.tick_size == 1,
            r.lot_size == 1,
            r.price_scale == 0,
            r.quantity_scale == 0,
    {
        Market {
            id: MarketId::new(base, quote),
            status: MarketStatus::Active,
            tick_size: 1,
            lot_size: 1,
            price_scale: 0,
            quantity_scale: 0,
        }
    }

    /// An active market with explicit decimal precision.
    pub fn with_precision(base: &str, quote: &str, price_decimals: u32, quantity_decimals: u32) -> (r: Self)
        ensures
            r.id@ == (base@, quote@),
            r.status == MarketStatus::Active,
            r.tick_size == 1,
            r.lot_size == 1,
            r.price_scale == price_decimals,
            r.quantity_scale == quantity_decimals,
    {
        Market {
            id: MarketId::new(base, quote),
            status: MarketStatus::Active,
            tick_size: 1,
            lot_size: 1,
            price_scale: price_decimals,
            quantity_scale: quantity_decimals,
        }
    }

    pub fn is_active(&self) -> (r: bool)
        ensures
            r == (self.status == MarketStatus::Active),
    {
        self.status == MarketStatus::Active
    }

    /// Integer multiplier for price representation.
    pub fn price_multiplier(&self) -> (r: u64)
        ensures
            r == saturating_ten_pow(self.price_scale),
    {
        10u64.saturating_pow(self.price_scale)
    }

    /// Integer multiplier for quantity representation.
    pub fn quantity_multiplier(&self) -> (r: u64)
        ensures
            r == saturating_ten_pow(self.quantity_scale),
    {
        10u64.saturating_pow(self.quantity_scale)
    }
}

} // verus!
