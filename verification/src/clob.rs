//! Quote-service records, price-string parsing and the retry policy.
//!
//! The quote service answers with prices as strings; the library parses
//! them into micro-units. The transport itself is outside the library;
//! its retry policy (retry `429` and `5xx`, fail on other `4xx`, back
//! off exponentially) is decided here.

use vstd::prelude::*;
use vstd::string::StringSliceAdditionalSpecFns;

use crate::money::{decimal_micros, parse_decimal};

verus! {

/// Response of the midpoint endpoint.
#[derive(Debug, Clone)]
pub struct MidpointResponse {
    pub mid: String,
}

/// Response of the price endpoint.
#[derive(Debug, Clone)]
pub struct PriceResponse {
    pub price: String,
}

/// One level of an order book.
#[derive(Debug, Clone)]
pub struct OrderLevel {
    pub price: String,
    pub size: String,
}

/// Response of the book endpoint.
#[derive(Debug, Clone)]
pub struct OrderBook {
    pub bids: Vec<OrderLevel>,
    pub asks: Vec<OrderLevel>,
}

/// Combined price data for one token.
#[derive(Debug, Clone)]
pub struct MarketPrices {
    pub token_id: String,
    pub outcome: String,
    pub midpoint: i64,
    pub best_bid: Option<i64>,
    pub best_ask: Option<i64>,
    pub spread: Option<i64>,
}

/// Parse a price string into micro-units.
pub fn parse_price(s: &str) -> (r: Option<i64>)
    ensures
        match r {
            Some(v) => decimal_micros(s.spec_bytes()) == Some(v as int),
            None => decimal_micros(s.spec_bytes()) is None,
        },
{
    parse_decimal(s.as_bytes())
}

/// The spread of a quote: ask minus bid when both sides are present.
pub fn spread_of(best_bid: Option<i64>, best_ask: Option<i64>) -> (r: Option<i64>)
    requires
        (match best_bid {
            Some(b) => -1_000_000_000 <= b <= 1_000_000_000,
            None => true,
        }),
        (match best_ask {
            Some(a) => -1_000_000_000 <= a <= 1_000_000_000,
            None => true,
        }),
    ensures
        r == (match (best_bid, best_ask) {
            (Some(b), Some(a)) => Some((a - b) as i64),
            _ => None::<i64>,
        }),
{
    match (best_bid, best_ask) {
        (Some(b), Some(a)) => Some(a - b),
        _ => None,
    }
}

/// What the transport does with an HTTP status.
#[derive(Debug, Clone, Copy, PartialEq, Eq, Structural)]
pub enum RetryClass {
    Success,
    Retry,
    Fatal,
}

/// Classify a status: success on `2xx`, retry on `429` or `5xx`, fatal
/// otherwise.
pub fn classify_status(code: u16) -> (r: RetryClass)
    ensures
        (200 <= code < 300) ==> r is Success,
        (code == 429 || 500 <= code) ==> r is Retry,
        !(200 <= code < 300) && !(code == 429 || 500 <= code) ==> r is Fatal,
{
    if 200 <= code && code < 300 {
        RetryClass::Success
    } else if code == 429 || 500 <= code {
        RetryClass::Retry
    } else {
        RetryClass::Fatal
    }
}

/// The backoff before retry `attempt` (counted from one): the base
/// delay doubled per prior attempt.
pub fn backoff_ms(base_ms: u64, attempt: u32) -> (r: u64)
    requires
        1 <= attempt <= 32,
        base_ms <= 1_000_000,
    ensures
        r == base_ms * crate::money::pow2((attempt - 1) as nat),
{
    let mut factor: u64 = 1;
    let mut k: u32 = 1;
    while k < attempt
        invariant
            1 <= k <= attempt <= 32,
            factor == crate::money::pow2((k - 1) as nat),
            factor <= 0x1_0000_0000,
        decreases attempt - k,
    {
        proof {
            crate::money::lemma_pow2_mono((k - 1) as nat, 31);
            assert(crate::money::pow2(31) == 0x8000_0000) by {
                reveal_with_fuel(crate::money::pow2, 32);
            }
        }
        factor = factor * 2;
        k += 1;
    }
    proof {
        crate::money::lemma_pow2_bound((attempt - 1) as nat);
        assert(base_ms * factor <= 1_000_000 * 0x1_0000_0000) by (nonlinear_arith)
            requires
                0 <= base_ms <= 1_000_000,
                0 <= factor <= 0x1_0000_0000,
        ;
    }
    base_ms * factor
}

} // verus!
