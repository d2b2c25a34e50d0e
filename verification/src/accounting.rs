//! The accountant: close each cycle against the bankroll.
//!
//! Closing a cycle sums the cycle's API cost, debits it in a single
//! bankroll entry (none at all when the cost is zero), and reports
//! whether the agent is still alive. The accountant also picks the
//! adaptive cycle pacing and synthesizes the death report.

use vstd::prelude::*;

use crate::ledger::{
    open_rows, spec_current_bankroll, sum_cycle_cost, Database, EntryKind, LedgerError,
    LedgerView, TradeRow, AMOUNT_LIMIT, BALANCE_LIMIT, TABLE_CAP,
};
use crate::money::{ascii_bytes_to_string, is_digit, lemma_dec_digits_val, push_dec_digits};

verus! {

pub struct Accountant {
    pub low_bankroll_threshold: i64,
}

/// What closing a cycle found and did.
#[derive(Debug, Clone, Copy, PartialEq, Eq, Structural)]
pub struct CycleAccounting {
    pub bankroll_before: i64,
    pub bankroll_after: i64,
    pub api_cost: i64,
    pub is_alive: bool,
}

/// The diagnostic summary printed once when the bankroll is exhausted.
#[derive(Debug)]
pub struct DeathReport {
    pub cycles_completed: i64,
    pub total_trades: i64,
    pub total_pnl: i64,
    pub final_bankroll: i64,
    pub open_positions: usize,
    pub cause: String,
    pub recent_trades: Vec<TradeRow>,
}

/// The seed the ledger opened with: the first row's balance when that
/// row is a seed, zero otherwise.
pub open spec fn spec_initial_seed(v: LedgerView) -> int {
    if v.bankroll_log.len() > 0 && v.bankroll_log[0].entry_type is Seed {
        v.bankroll_log[0].balance_after as int
    } else {
        0
    }
}

impl Accountant {
    pub fn new(low_bankroll_threshold: i64) -> (r: Accountant)
        ensures
            r.low_bankroll_threshold == low_bankroll_threshold,
    {
        Accountant { low_bankroll_threshold }
    }

    /// Close a cycle: read the bankroll, sum the cycle's API cost, and
    /// when that cost is positive debit it in one bankroll entry.
    /// `is_alive` reports whether the remaining bankroll is positive.
    /// Must be called exactly once per cycle number: a second call
    /// debits the (unchanged) cycle cost again.
    pub fn close_cycle(&self, db: &mut Database, cycle_number: i64) -> (r: Result<
        CycleAccounting,
        LedgerError,
    >)
        requires
            old(db).wf(),
            0 <= cycle_number,
        ensures
            final(db).wf(),
            ({
                let before = spec_current_bankroll(old(db)@);
                let cost = sum_cycle_cost(old(db)@.api_cost_log, cycle_number as int);
                match r {
                    Ok(acct) => {
                        &&& acct.bankroll_before == before
                        &&& acct.api_cost == cost
                        &&& acct.bankroll_after == before - cost
                        &&& acct.is_alive == (before - cost > 0)
                        &&& (cost == 0 ==> final(db)@ == old(db)@)
                        &&& (cost > 0 ==> {
                            &&& final(db)@ == (LedgerView {
                                bankroll_log: final(db)@.bankroll_log,
                                ..old(db)@
                            })
                            &&& final(db)@.bankroll_log.len() == old(db)@.bankroll_log.len() + 1
                            &&& final(db)@.bankroll_log.last().entry_type is ApiCost
                            &&& final(db)@.bankroll_log.last().amount == -cost
                            &&& final(db)@.bankroll_log.last().balance_after == before - cost
                            &&& final(db)@.bankroll_log.last().description@
                                == spec_cycle_cost_description(cycle_number as int)
                        })
                    },
                    Err(_) => {
                        &&& final(db)@ == old(db)@
                        &&& !(cost <= AMOUNT_LIMIT && -BALANCE_LIMIT <= before - cost
                            && old(db)@.bankroll_log.len() < TABLE_CAP)
                    },
                }
            }),
    {
        let bankroll_before = db.get_current_bankroll();
        proof {
            if db@.bankroll_log.len() > 0 {
                let bl = db@.bankroll_log;
                assert(bl[bl.len() - 1] == bl.last());
                assert(-BALANCE_LIMIT <= bl[bl.len() - 1].balance_after <= BALANCE_LIMIT);
            }
        }
        let api_cost = db.get_cycle_api_cost(cycle_number);
        if api_cost > 0 {
            if api_cost > AMOUNT_LIMIT {
                return Err(LedgerError::AmountOutOfRange);
            }
            let after = bankroll_before - api_cost;
            if after < -BALANCE_LIMIT {
                return Err(LedgerError::AmountOutOfRange);
            }
            let description = cycle_cost_description(cycle_number);
            let res = db.log_bankroll_entry(
                EntryKind::ApiCost,
                -api_cost,
                after,
                description,
                0,
                false,
            );
            match res {
                Ok(()) => Ok(
                    CycleAccounting {
                        bankroll_before,
                        bankroll_after: after,
                        api_cost,
                        is_alive: after > 0,
                    },
                ),
                Err(e) => Err(e),
            }
        } else {
            Ok(
                CycleAccounting {
                    bankroll_before,
                    bankroll_after: bankroll_before,
                    api_cost: 0,
                    is_alive: bankroll_before > 0,
                },
            )
        }
    }

    /// The pacing for the next cycle: the short period while the
    /// bankroll sits at or above the threshold, the long one below it.
    pub fn get_cycle_duration_secs(&self, bankroll: i64, high: u64, low: u64) -> (r: u64)
        ensures
            r == if bankroll >= self.low_bankroll_threshold {
                high
            } else {
                low
            },
    {
        if bankroll >= self.low_bankroll_threshold {
            high
        } else {
            low
        }
    }

    /// Build the death report from ledger state.
    pub fn generate_death_report(&self, db: &Database) -> (r: DeathReport)
        requires
            db.wf(),
        ensures
            r.cycles_completed == db@.cycle_log.len(),
            r.total_trades == db@.trades.len(),
            r.final_bankroll == spec_current_bankroll(db@),
            r.total_pnl == spec_current_bankroll(db@) - spec_initial_seed(db@),
            r.open_positions == open_rows(db@.positions).len(),
            spec_current_bankroll(db@) <= 0 ==> r.cause@ == "Bankroll depleted to zero"@,
            spec_current_bankroll(db@) > 0 ==> r.cause@ == "Unknown"@,
            r.recent_trades@.len() == if db@.trades.len() < 10 {
                db@.trades.len() as int
            } else {
                10int
            },
            forall|k: int|
                0 <= k < r.recent_trades@.len() ==> {
                    let t = db@.trades[db@.trades.len() - 1 - k];
                    &&& (#[trigger] r.recent_trades@[k]).trade_id@ == t.trade_id@
                    &&& r.recent_trades@[k].market_condition_id@ == t.market_condition_id@
                    &&& r.recent_trades@[k].side@ == t.side@
                    &&& r.recent_trades@[k].price == t.price
                    &&& r.recent_trades@[k].size == t.size
                    &&& r.recent_trades@[k].status@ == t.status@
                },
    {
        let cycles_completed = db.get_next_cycle_number() - 1;
        let total_trades = db.get_total_trades_count();
        let final_bankroll = db.get_current_bankroll();
        let open_positions = db.get_open_positions().len();
        let recent_trades = db.get_recent_trades(10);
        let initial_seed = db.initial_seed();
        let total_pnl = final_bankroll - initial_seed;
        let cause = if final_bankroll <= 0 {
            String::from_str("Bankroll depleted to zero")
        } else {
            String::from_str("Unknown")
        };
        DeathReport {
            cycles_completed,
            total_trades,
            total_pnl,
            final_bankroll,
            open_positions,
            cause,
            recent_trades,
        }
    }
}

/// The text on a cycle's API-cost debit: `Cycle <number> API cost`.
pub open spec fn spec_cycle_cost_description(n: int) -> Seq<char> {
    "Cycle "@ + crate::money::dec_digits(n as nat).map_values(|b: u8| b as char) + " API cost"@
}

/// The description written on a cycle's API-cost debit.
fn cycle_cost_description(cycle_number: i64) -> (r: String)
    requires
        0 <= cycle_number,
    ensures
        r@ == spec_cycle_cost_description(cycle_number as int),
{
    let mut bytes: Vec<u8> = Vec::new();
    push_dec_digits(cycle_number as u64, &mut bytes);
    proof {
        lemma_dec_digits_val(cycle_number as nat);
        assert(bytes@ =~= crate::money::dec_digits(cycle_number as nat));
        assert forall|i: int| 0 <= i < bytes@.len() implies (#[trigger] bytes@[i]) < 128 by {
            assert(is_digit(bytes@[i]));
        }
    }
    let digits = ascii_bytes_to_string(bytes);
    let mut s = String::from_str("Cycle ");
    s.append(digits.as_str());
    s.append(" API cost");
    proof {
        assert(digits@ =~= crate::money::dec_digits(cycle_number as nat).map_values(
            |b: u8| b as char,
        ));
    }
    s
}

} // verus!
