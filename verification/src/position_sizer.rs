//! Kelly position sizing under layered risk caps.
//!
//! A pure function from an opportunity, the bankroll and the current
//! exposure to either a sizing or a tagged rejection. All prices,
//! probabilities and fractions are micro-units (`SCALE` is one).

use vstd::prelude::*;

use crate::edge_detector::{EdgeOpportunity, TradeSide};
use crate::money::{mul_div_floor, MONEY_LIMIT, SCALE};

verus! {

/// Largest bankroll the sizer accepts, in micro-dollars: keeps every
/// product in range.
pub const SIZER_BANKROLL_LIMIT: i64 = 1_000_000_000_000;

pub struct PositionSizer {
    pub kelly_fraction: i64,
    pub max_position_pct: i64,
    pub max_total_exposure_pct: i64,
}

/// The outcome of sizing: either every field filled, or a tagged
/// rejection with the numeric fields zeroed.
#[derive(Debug, Clone)]
pub struct SizingResult {
    pub raw_kelly: i64,
    pub adjusted_kelly: i64,
    pub position_usd: i64,
    pub shares: i64,
    pub limit_price: i64,
    pub reject_reason: Option<String>,
}

impl SizingResult {
    pub fn is_rejected(&self) -> (r: bool)
        ensures
            r == (self.reject_reason is Some),
    {
        self.reject_reason.is_some()
    }
}

/// What a buyer of this side pays per share.
pub open spec fn spec_buy_price(side: TradeSide, market_price: int) -> int {
    if side is Yes {
        market_price
    } else {
        SCALE - market_price
    }
}

/// The chance that this side pays out.
pub open spec fn spec_win_prob(side: TradeSide, est: int) -> int {
    if side is Yes {
        est
    } else {
        SCALE - est
    }
}

/// The Kelly fraction for a binary bet: `(win - buy) / (1 - buy)`,
/// rounded down in micro-units.
pub open spec fn spec_raw_kelly(win: int, buy: int) -> int
    recommends
        buy < SCALE,
{
    (win - buy) * SCALE / (SCALE - buy)
}

/// The sizing multiplier for a market `days` days from resolution.
pub open spec fn spec_time_multiplier(days: int) -> int {
    if 0 <= days <= 2 {
        SCALE as int
    } else if 3 <= days <= 4 {
        700_000
    } else if 5 <= days <= 7 {
        400_000
    } else {
        200_000
    }
}

/// The Kelly value after the configured fraction and, for weather
/// markets, the time multiplier.
pub open spec fn spec_adjusted_kelly(
    sizer: PositionSizer,
    win: int,
    buy: int,
    days: Option<i64>,
) -> int {
    let adj = spec_raw_kelly(win, buy) * sizer.kelly_fraction / (SCALE as int);
    match days {
        Some(d) => adj * spec_time_multiplier(d as int) / (SCALE as int),
        None => adj,
    }
}

/// What may still be put at risk: the exposure cap minus what is already
/// out, floored at zero.
pub open spec fn spec_remaining_exposure(
    sizer: PositionSizer,
    bankroll: int,
    current_exposure: int,
) -> int {
    let max_exposure = sizer.max_total_exposure_pct * bankroll / (SCALE as int);
    if max_exposure - current_exposure >= 0 {
        max_exposure - current_exposure
    } else {
        0
    }
}

/// The dollar size before the minimum-ticket check: the Kelly bet capped
/// by the per-position limit and the remaining exposure.
pub open spec fn spec_position_usd(
    sizer: PositionSizer,
    win: int,
    buy: int,
    days: Option<i64>,
    bankroll: int,
    current_exposure: int,
) -> int {
    let kelly_usd = spec_adjusted_kelly(sizer, win, buy, days) * bankroll / (SCALE as int);
    let cap_usd = sizer.max_position_pct * bankroll / (SCALE as int);
    let rem = spec_remaining_exposure(sizer, bankroll, current_exposure);
    if kelly_usd <= cap_usd && kelly_usd <= rem {
        kelly_usd
    } else if cap_usd <= rem {
        cap_usd
    } else {
        rem
    }
}

/// Well-formed sizer parameters: fractions between zero and one.
pub open spec fn sizer_wf(s: PositionSizer) -> bool {
    &&& 0 <= s.kelly_fraction <= SCALE
    &&& 0 <= s.max_position_pct <= SCALE
    &&& 0 <= s.max_total_exposure_pct <= SCALE
}

impl PositionSizer {
    pub fn new(kelly_fraction: i64, max_position_pct: i64, max_total_exposure_pct: i64) -> (r:
        PositionSizer)
        ensures
            r.kelly_fraction == kelly_fraction,
            r.max_position_pct == max_position_pct,
            r.max_total_exposure_pct == max_total_exposure_pct,
    {
        PositionSizer { kelly_fraction, max_position_pct, max_total_exposure_pct }
    }

    /// Size with no time multiplier.
    pub fn size_position(&self, opp: &EdgeOpportunity, bankroll: i64, current_exposure: i64) -> (r:
        SizingResult)
        requires
            sizer_wf(*self),
            0 <= opp.market_price <= SCALE,
            0 <= opp.estimated_probability <= SCALE,
            1 <= spec_buy_price(opp.side, opp.market_price as int),
            0 <= bankroll <= SIZER_BANKROLL_LIMIT,
            0 <= current_exposure <= MONEY_LIMIT,
        ensures
            sizing_post(*self, *opp, bankroll as int, current_exposure as int, None, r),
    {
        self.size_position_with_time(opp, bankroll, current_exposure, None)
    }

    /// Size a position; `days_until_resolution` scales weather bets down
    /// the further out they resolve.
    pub fn size_position_with_time(
        &self,
        opp: &EdgeOpportunity,
        bankroll: i64,
        current_exposure: i64,
        days_until_resolution: Option<i64>,
    ) -> (r: SizingResult)
        requires
            sizer_wf(*self),
            0 <= opp.market_price <= SCALE,
            0 <= opp.estimated_probability <= SCALE,
            1 <= spec_buy_price(opp.side, opp.market_price as int),
            0 <= bankroll <= SIZER_BANKROLL_LIMIT,
            0 <= current_exposure <= MONEY_LIMIT,
        ensures
            sizing_post(
                *self,
                *opp,
                bankroll as int,
                current_exposure as int,
                days_until_resolution,
                r,
            ),
    {
        let (buy_price, win_prob) = match opp.side {
            TradeSide::Yes => (opp.market_price, opp.estimated_probability),
            TradeSide::No => (SCALE - opp.market_price, SCALE - opp.estimated_probability),
        };
        if buy_price >= SCALE {
            return rejected("buy price >= 1.0");
        }
        if win_prob <= buy_price {
            // The floored Kelly value is positive exactly when the win
            // probability beats the buy price.
            proof {
                lemma_raw_kelly_sign(win_prob as int, buy_price as int);
            }
            return rejected("negative Kelly — no edge");
        }
        proof {
            lemma_raw_kelly_sign(win_prob as int, buy_price as int);
            crate::money::lemma_mul_div_le(
                (win_prob - buy_price) as int,
                (SCALE - buy_price) as int,
                SCALE as int,
            );
        }
        let raw_kelly = mul_div_floor(win_prob - buy_price, SCALE, SCALE - buy_price);
        proof {
            crate::money::lemma_mul_div_le(
                self.kelly_fraction as int,
                SCALE as int,
                raw_kelly as int,
            );
        }
        let mut adjusted_kelly = mul_div_floor(raw_kelly, self.kelly_fraction, SCALE);
        match days_until_resolution {
            Some(days) => {
                let mult: i64 = if 0 <= days && days <= 2 {
                    SCALE
                } else if 3 <= days && days <= 4 {
                    700_000
                } else if 5 <= days && days <= 7 {
                    400_000
                } else {
                    200_000
                };
                proof {
                    crate::money::lemma_mul_div_le(
                        mult as int,
                        SCALE as int,
                        adjusted_kelly as int,
                    );
                }
                adjusted_kelly = mul_div_floor(adjusted_kelly, mult, SCALE);
            }
            None => {}
        }
        proof {
            crate::money::lemma_mul_div_le(
                self.max_total_exposure_pct as int,
                SCALE as int,
                bankroll as int,
            );
        }
        let max_exposure = mul_div_floor(self.max_total_exposure_pct, bankroll, SCALE);
        let remaining_exposure = if max_exposure - current_exposure >= 0 {
            max_exposure - current_exposure
        } else {
            0
        };
        if remaining_exposure <= 0 {
            return rejected("exposure limit reached");
        }
        proof {
            crate::money::lemma_mul_div_le(adjusted_kelly as int, SCALE as int, bankroll as int);
            crate::money::lemma_mul_div_le(
                self.max_position_pct as int,
                SCALE as int,
                bankroll as int,
            );
        }
        let kelly_usd = mul_div_floor(adjusted_kelly, bankroll, SCALE);
        let cap_usd = mul_div_floor(self.max_position_pct, bankroll, SCALE);
        let position_usd = if kelly_usd <= cap_usd && kelly_usd <= remaining_exposure {
            kelly_usd
        } else if cap_usd <= remaining_exposure {
            cap_usd
        } else {
            remaining_exposure
        };
        if position_usd < SCALE {
            return rejected("position too small");
        }
        proof {
            assert(position_usd * SCALE / (buy_price as int) <= i64::MAX) by (nonlinear_arith)
                requires
                    0 <= position_usd <= 1_000_000_000_000,
                    1 <= buy_price,
            ;
        }
        let shares = mul_div_floor(position_usd, SCALE, buy_price);
        SizingResult {
            raw_kelly,
            adjusted_kelly,
            position_usd,
            shares,
            limit_price: buy_price,
            reject_reason: None,
        }
    }
}

/// The sizing contract: each tagged rejection comes on exactly its
/// condition, in order, and an accepted result carries exactly the
/// capped Kelly numbers.
pub open spec fn sizing_post(
    sizer: PositionSizer,
    opp: EdgeOpportunity,
    bankroll: int,
    current_exposure: int,
    days: Option<i64>,
    r: SizingResult,
) -> bool {
    let buy = spec_buy_price(opp.side, opp.market_price as int);
    let win = spec_win_prob(opp.side, opp.estimated_probability as int);
    if buy >= SCALE {
        rejected_with(r, "buy price >= 1.0"@)
    } else if win <= buy {
        rejected_with(r, "negative Kelly — no edge"@)
    } else if spec_remaining_exposure(sizer, bankroll, current_exposure) == 0 {
        rejected_with(r, "exposure limit reached"@)
    } else if spec_position_usd(sizer, win, buy, days, bankroll, current_exposure) < SCALE {
        rejected_with(r, "position too small"@)
    } else {
        let pos = spec_position_usd(sizer, win, buy, days, bankroll, current_exposure);
        &&& r.reject_reason is None
        &&& r.raw_kelly == spec_raw_kelly(win, buy)
        &&& r.adjusted_kelly == spec_adjusted_kelly(sizer, win, buy, days)
        &&& r.position_usd == pos
        &&& r.shares == pos * SCALE / buy
        &&& r.limit_price == buy
    }
}

/// A rejection carrying the given tag, with the numeric fields zeroed.
pub open spec fn rejected_with(r: SizingResult, tag: Seq<char>) -> bool {
    &&& r.reject_reason matches Some(m) && m@ == tag
    &&& r.raw_kelly == 0
    &&& r.adjusted_kelly == 0
    &&& r.position_usd == 0
    &&& r.shares == 0
    &&& r.limit_price == 0
}

fn rejected(reason: &str) -> (r: SizingResult)
    ensures
        rejected_with(r, reason@),
{
    SizingResult {
        raw_kelly: 0,
        adjusted_kelly: 0,
        position_usd: 0,
        shares: 0,
        limit_price: 0,
        reject_reason: Some(reason.to_owned()),
    }
}

/// The floored micro-unit Kelly value is positive exactly when the win
/// probability strictly beats the buy price.
proof fn lemma_raw_kelly_sign(win: int, buy: int)
    requires
        0 <= buy < SCALE,
        0 <= win <= SCALE,
    ensures
        win > buy ==> 0 < spec_raw_kelly(win, buy),
        win <= buy ==> spec_raw_kelly(win, buy) <= 0,
{
    let d = SCALE - buy;
    if win > buy {
        assert((win - buy) * SCALE >= SCALE) by (nonlinear_arith)
            requires
                win - buy >= 1,
        ;
        assert((win - buy) * SCALE / d >= 1) by (nonlinear_arith)
            requires
                (win - buy) * SCALE >= SCALE,
                0 < d <= SCALE,
        ;
    } else {
        assert((win - buy) * SCALE <= 0) by (nonlinear_arith)
            requires
                win - buy <= 0,
        ;
        assert((win - buy) * SCALE / d <= 0) by (nonlinear_arith)
            requires
                (win - buy) * SCALE <= 0,
                0 < d,
            ;
    }
}

} // verus!
