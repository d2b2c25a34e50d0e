//! Trading mode selection.
//!
//! The agent either simulates fills (`Paper`) or posts real orders (`Live`).
//! The mode is chosen once at startup from a configuration string.

use vstd::prelude::*;
use vstd::string::StringSliceAdditionalSpecFns;

use crate::textscan::{eq_lower, lower_bytes};

verus! {

#[derive(Debug, Clone, Copy, PartialEq, Eq, Structural)]
pub enum TradingMode {
    Paper,
    Live,
}

/// The mode a configuration string names: `paper` or `live`, in any case.
pub open spec fn spec_trading_mode(s: Seq<u8>) -> Option<TradingMode> {
    if lower_bytes(s) == seq![112u8, 97u8, 112u8, 101u8, 114u8] {
        Some(TradingMode::Paper)
    } else if lower_bytes(s) == seq![108u8, 105u8, 118u8, 101u8] {
        Some(TradingMode::Live)
    } else {
        None
    }
}

impl TradingMode {
    /// Parse a configuration string: `paper` or `live`, in any case.
    pub fn parse(s: &str) -> (r: Option<TradingMode>)
        ensures
            r == spec_trading_mode(s.spec_bytes()),
    {
        let bytes = s.as_bytes();
        let paper: [u8; 5] = [112, 97, 112, 101, 114];
        let live: [u8; 4] = [108, 105, 118, 101];
        if eq_lower(bytes, paper.as_slice()) {
            proof {
                assert(paper@ =~= seq![112u8, 97u8, 112u8, 101u8, 114u8]);
            }
            Some(TradingMode::Paper)
        } else if eq_lower(bytes, live.as_slice()) {
            proof {
                assert(paper@ =~= seq![112u8, 97u8, 112u8, 101u8, 114u8]);
                assert(live@ =~= seq![108u8, 105u8, 118u8, 101u8]);
            }
            Some(TradingMode::Live)
        } else {
            proof {
                assert(paper@ =~= seq![112u8, 97u8, 112u8, 101u8, 114u8]);
                assert(live@ =~= seq![108u8, 105u8, 118u8, 101u8]);
            }
            None
        }
    }

    /// The configuration word for this mode.
    pub fn label(&self) -> (r: String)
        ensures
            self is Paper ==> r@ == "paper"@,
            self is Live ==> r@ == "live"@,
    {
        match self {
            TradingMode::Paper => String::from_str("paper"),
            TradingMode::Live => String::from_str("live"),
        }
    }
}

impl core::str::FromStr for TradingMode {
    type Err = ();

    fn from_str(s: &str) -> Result<TradingMode, ()> {
        match TradingMode::parse(s) {
            Some(m) => Ok(m),
            None => Err(()),
        }
    }
}

} // verus!
