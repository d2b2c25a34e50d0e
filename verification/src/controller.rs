//! The cycle controller's decisions.
//!
//! The loop's I/O — fetching pages, quotes and forecasts, posting
//! orders, sleeping — happens outside the library. What the loop
//! decides is here: resolving the traded token, the checks each
//! opportunity passes before sizing, the drawdown-reduced Kelly
//! fraction, closing the cycle's books, and the adaptive sleep.

use vstd::prelude::*;
use vstd::string::StringSliceAdditionalSpecFns;

use crate::accounting::{Accountant, CycleAccounting};
use crate::edge_detector::TradeSide;
use crate::ledger::{
    no_pending_for, spec_current_bankroll, sum_cycle_cost, Database, LedgerError, LedgerView,
    AMOUNT_LIMIT, BALANCE_LIMIT, TABLE_CAP,
};
use crate::money::SCALE;
use crate::scanner::GammaMarket;

verus! {

/// The index of the first market with the given condition id.
pub open spec fn spec_find_market_index(ms: Seq<GammaMarket>, id: Seq<char>, from: int) -> int
    decreases ms.len() - from,
{
    if from < 0 || from >= ms.len() {
        ms.len() as int
    } else if ms[from].condition_id matches Some(c) && c@ == id {
        from
    } else {
        spec_find_market_index(ms, id, from + 1)
    }
}

/// The token of the wanted side on a market: the first token whose
/// outcome reads `Yes` (or `No`).
pub open spec fn spec_find_token(ts: Seq<crate::scanner::Token>, want: Seq<char>, from: int) -> int
    decreases ts.len() - from,
{
    if from < 0 || from >= ts.len() {
        ts.len() as int
    } else if ts[from].outcome@ == want {
        from
    } else {
        spec_find_token(ts, want, from + 1)
    }
}

proof fn lemma_find_market_index_props(ms: Seq<GammaMarket>, id: Seq<char>, from: int)
    requires
        0 <= from <= ms.len(),
    ensures
        from <= spec_find_market_index(ms, id, from) <= ms.len(),
        spec_find_market_index(ms, id, from) < ms.len() ==> (ms[spec_find_market_index(
            ms,
            id,
            from,
        )].condition_id matches Some(c) && c@ == id),
    decreases ms.len() - from,
{
    if from < ms.len() && !(ms[from].condition_id matches Some(c) && c@ == id) {
        lemma_find_market_index_props(ms, id, from + 1);
    }
}

proof fn lemma_find_token_props(ts: Seq<crate::scanner::Token>, want: Seq<char>, from: int)
    requires
        0 <= from <= ts.len(),
    ensures
        from <= spec_find_token(ts, want, from) <= ts.len(),
        spec_find_token(ts, want, from) < ts.len() ==> ts[spec_find_token(
            ts,
            want,
            from,
        )].outcome@ == want,
    decreases ts.len() - from,
{
    if from < ts.len() && ts[from].outcome@ != want {
        lemma_find_token_props(ts, want, from + 1);
    }
}

/// Look the traded token up: the first market with the condition id,
/// and on it the first token of the wanted side.
pub fn find_token_id(
    markets: &Vec<GammaMarket>,
    condition_id: &str,
    side: TradeSide,
) -> (r: Option<String>)
    ensures
        ({
            let want = if side is Yes {
                "Yes"@
            } else {
                "No"@
            };
            let mi = spec_find_market_index(markets@, condition_id@, 0);
            match r {
                Some(t) => mi < markets@.len() && ({
                    let ts = markets@[mi].tokens@;
                    let ti = spec_find_token(ts, want, 0);
                    ti < ts.len() && t@ == ts[ti].token_id@
                }),
                None => mi == markets@.len() || ({
                    let ts = markets@[mi].tokens@;
                    spec_find_token(ts, want, 0) == ts.len()
                }),
            }
        }),
{
    let want = match side {
        TradeSide::Yes => String::from_str("Yes"),
        TradeSide::No => String::from_str("No"),
    };
    let cid = condition_id.to_owned();
    proof {
        lemma_find_market_index_props(markets@, condition_id@, 0);
    }
    let n = markets.len();
    let mut i: usize = 0;
    while i < n
        invariant
            0 <= i <= n,
            n == markets@.len(),
            cid@ == condition_id@,
            want@ == (if side is Yes {
                "Yes"@
            } else {
                "No"@
            }),
            i <= spec_find_market_index(markets@, condition_id@, 0),
            spec_find_market_index(markets@, condition_id@, 0) == spec_find_market_index(
                markets@,
                condition_id@,
                i as int,
            ),
        decreases n - i,
    {
        let matches_id = match &markets[i].condition_id {
            Some(c) => c.eq(&cid),
            None => false,
        };
        if matches_id {
            proof {
                assert(spec_find_market_index(markets@, condition_id@, i as int) == i as int);
            }
            let ts = &markets[i].tokens;
            proof {
                lemma_find_token_props(ts@, want@, 0);
            }
            let m = ts.len();
            let mut j: usize = 0;
            while j < m
                invariant
                    0 <= j <= m,
                    m == ts@.len(),
                    i < markets@.len(),
                    ts@ == markets@[i as int].tokens@,
                    spec_find_market_index(markets@, condition_id@, 0) == i as int,
                    want@ == (if side is Yes {
                        "Yes"@
                    } else {
                        "No"@
                    }),
                    j <= spec_find_token(ts@, want@, 0),
                    spec_find_token(ts@, want@, 0) == spec_find_token(ts@, want@, j as int),
                decreases m - j,
            {
                if ts[j].outcome.eq(&want) {
                    proof {
                        assert(spec_find_token(ts@, want@, j as int) == j as int);
                    }
                    return Some(ts[j].token_id.clone());
                }
                j += 1;
                proof {
                    lemma_find_token_props(ts@, want@, j as int);
                }
            }
            return None;
        }
        i += 1;
        proof {
            lemma_find_market_index_props(markets@, condition_id@, i as int);
        }
    }
    None
}

/// Why an opportunity is passed over before sizing.
#[derive(Debug, Clone, Copy, PartialEq, Eq, Structural)]
pub enum GateOutcome {
    Proceed,
    SkipDailyLossLimit,
    SkipNoTokenId,
    SkipAlreadyPositioned,
    SkipCorrelationLimit,
    SkipWeatherExposureLimit,
}

/// The screen each opportunity passes, checks in the loop's order: the
/// weather daily-loss breaker, the token lookup, the no-re-buy rule
/// for weather markets, the correlated-exposure cap, and the total
/// weather cap.
pub open spec fn spec_gate(
    is_weather: bool,
    breaker_active: bool,
    token_found: bool,
    already_positioned: bool,
    group_over: bool,
    weather_over: bool,
) -> GateOutcome {
    if is_weather && breaker_active {
        GateOutcome::SkipDailyLossLimit
    } else if !token_found {
        GateOutcome::SkipNoTokenId
    } else if is_weather && already_positioned {
        GateOutcome::SkipAlreadyPositioned
    } else if group_over {
        GateOutcome::SkipCorrelationLimit
    } else if is_weather && weather_over {
        GateOutcome::SkipWeatherExposureLimit
    } else {
        GateOutcome::Proceed
    }
}

pub fn gate_opportunity(
    is_weather: bool,
    breaker_active: bool,
    token_found: bool,
    already_positioned: bool,
    group_over: bool,
    weather_over: bool,
) -> (r: GateOutcome)
    ensures
        r == spec_gate(
            is_weather,
            breaker_active,
            token_found,
            already_positioned,
            group_over,
            weather_over,
        ),
{
    if is_weather && breaker_active {
        GateOutcome::SkipDailyLossLimit
    } else if !token_found {
        GateOutcome::SkipNoTokenId
    } else if is_weather && already_positioned {
        GateOutcome::SkipAlreadyPositioned
    } else if group_over {
        GateOutcome::SkipCorrelationLimit
    } else if is_weather && weather_over {
        GateOutcome::SkipWeatherExposureLimit
    } else {
        GateOutcome::Proceed
    }
}

impl GateOutcome {
    /// The reject reason recorded on the opportunity row.
    pub fn label(&self) -> (r: Option<&'static str>)
        ensures
            match self {
                GateOutcome::Proceed => r is None,
                GateOutcome::SkipDailyLossLimit => r matches Some(s) && s@ == "daily_loss_limit"@,
                GateOutcome::SkipNoTokenId => r matches Some(s) && s@ == "no_token_id"@,
                GateOutcome::SkipAlreadyPositioned => r matches Some(s) && s@
                    == "already_positioned"@,
                GateOutcome::SkipCorrelationLimit => r matches Some(s) && s@
                    == "correlation_limit"@,
                GateOutcome::SkipWeatherExposureLimit => r matches Some(s) && s@
                    == "weather_exposure_limit"@,
            },
    {
        match self {
            GateOutcome::Proceed => None,
            GateOutcome::SkipDailyLossLimit => Some("daily_loss_limit"),
            GateOutcome::SkipNoTokenId => Some("no_token_id"),
            GateOutcome::SkipAlreadyPositioned => Some("already_positioned"),
            GateOutcome::SkipCorrelationLimit => Some("correlation_limit"),
            GateOutcome::SkipWeatherExposureLimit => Some("weather_exposure_limit"),
        }
    }
}

/// The cycle's Kelly fraction: reduced by the configured factor while
/// the drawdown breaker is active.
pub fn effective_kelly(kelly_fraction: i64, breaker_active: bool, reduction: i64) -> (r: i64)
    requires
        0 <= kelly_fraction <= SCALE,
        0 <= reduction <= SCALE,
    ensures
        breaker_active ==> r == kelly_fraction * reduction / (SCALE as int),
        !breaker_active ==> r == kelly_fraction,
        0 <= r <= kelly_fraction,
{
    if breaker_active {
        proof {
            crate::money::lemma_mul_div_le(reduction as int, SCALE as int, kelly_fraction as int);
            assert(kelly_fraction * reduction == reduction * kelly_fraction) by (nonlinear_arith);
        }
        crate::money::mul_div_floor(kelly_fraction, reduction, SCALE)
    } else {
        kelly_fraction
    }
}

/// Close the cycle's books: debit the cycle's API cost through the
/// accountant, then append the cycle summary row carrying exactly that
/// cost. No opportunity of the cycle may still be pending.
pub fn finish_cycle(
    db: &mut Database,
    accountant: &Accountant,
    cycle_number: i64,
    markets_scanned: i64,
    markets_filtered: i64,
    trades_placed: i64,
) -> (r: Result<CycleAccounting, LedgerError>)
    requires
        old(db).wf(),
        cycle_number == old(db)@.cycle_log.len() + 1,
        no_pending_for(old(db)@.opportunities, cycle_number as int),
        old(db)@.cycle_log.len() < TABLE_CAP,
        old(db)@.bankroll_log.len() < TABLE_CAP,
        sum_cycle_cost(old(db)@.api_cost_log, cycle_number as int) <= AMOUNT_LIMIT,
        -BALANCE_LIMIT <= spec_current_bankroll(old(db)@) - sum_cycle_cost(
            old(db)@.api_cost_log,
            cycle_number as int,
        ),
    ensures
        final(db).wf(),
        match r {
            Ok(acct) => {
                &&& acct.bankroll_before == spec_current_bankroll(old(db)@)
                &&& acct.api_cost == sum_cycle_cost(old(db)@.api_cost_log, cycle_number as int)
                &&& acct.bankroll_after == acct.bankroll_before - acct.api_cost
                &&& acct.is_alive == (acct.bankroll_after > 0)
                &&& final(db)@.cycle_log.len() == old(db)@.cycle_log.len() + 1
                &&& final(db)@.cycle_log.last().cycle_number == cycle_number
                &&& final(db)@.cycle_log.last().api_cost_usd == acct.api_cost
                &&& final(db)@.cycle_log.last().bankroll_before == acct.bankroll_before
                &&& final(db)@.cycle_log.last().bankroll_after == acct.bankroll_after
                &&& final(db)@.cycle_log.last().trades_placed == trades_placed
                &&& spec_current_bankroll(final(db)@) == acct.bankroll_after
            },
            Err(_) => false,
        },
{
    let bankroll_before = db.get_current_bankroll();
    proof {
        crate::ledger::lemma_sum_cycle_cost_bound(db@.api_cost_log, cycle_number as int);
    }
    let acct = match accountant.close_cycle(db, cycle_number) {
        Ok(a) => a,
        Err(e) => {
            proof {
                assert(false);
            }
            return Err(e);
        }
    };
    proof {
        assert(db@.api_cost_log == old(db)@.api_cost_log);
        assert(db@.cycle_log == old(db)@.cycle_log);
        assert(db@.opportunities == old(db)@.opportunities);
    }
    let res = db.log_cycle_summary(
        cycle_number,
        markets_scanned,
        markets_filtered,
        trades_placed,
        acct.api_cost,
        acct.bankroll_before,
        acct.bankroll_after,
    );
    match res {
        Ok(()) => Ok(acct),
        Err(e) => {
            proof {
                assert(false);
            }
            Err(e)
        }
    }
}

/// How long to sleep after a cycle: the target seconds minus the time
/// the cycle took, floored at zero.
pub fn sleep_seconds(target_secs: u64, elapsed_secs: u64) -> (r: u64)
    ensures
        r == if elapsed_secs >= target_secs {
            0int
        } else {
            target_secs - elapsed_secs
        },
{
    if elapsed_secs >= target_secs {
        0
    } else {
        target_secs - elapsed_secs
    }
}

} // verus!
