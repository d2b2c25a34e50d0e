//! Trade execution against the ledger.
//!
//! Paper mode simulates a fill; live mode's order is posted outside
//! the library, and its returned id and status are recorded here. Both
//! paths write the same rows: one trade, an upserted position, a
//! `trade` debit for the dollars spent and, with a positive fee rate, a
//! separate `trading_fee` debit, so fees stay auditable. Exits mirror
//! this with a `SELL_` trade, a closed position and an `exit` credit.

use vstd::prelude::*;
use vstd::string::StringSliceAdditionalSpecFns;

use crate::config::TradingMode;
use crate::edge_detector::{EdgeOpportunity, TradeSide};
use crate::ledger::{
    find_market, find_open_slot, spec_current_bankroll, spec_has_trade, upsert_post, BankrollEntry,
    Database, EntryKind, LedgerError, LedgerView, PositionRow, AMOUNT_LIMIT, BALANCE_LIMIT,
    SIZE_LIMIT, TABLE_CAP,
};
use crate::money::{mul_div_floor, SCALE};
use crate::position_sizer::SizingResult;

verus! {

/// A sized, token-resolved opportunity ready to execute.
#[derive(Debug, Clone)]
pub struct TradeIntent {
    pub opportunity: EdgeOpportunity,
    pub token_id: String,
    pub sizing: SizingResult,
}

/// What an execution produced.
#[derive(Debug, Clone)]
pub struct TradeResult {
    pub trade_id: String,
    pub market_condition_id: String,
    pub token_id: String,
    pub side: TradeSide,
    pub price: i64,
    pub size: i64,
    pub status: String,
    pub paper: bool,
}

pub struct Executor {
    pub trading_mode: TradingMode,
    pub fee_rate: i64,
}

/// Relies on `uuid::Uuid::new_v4` and its `Display` form: a fresh
/// random identifier rendered in the canonical hyphenated form, which
/// is 36 characters long. Nothing further can be promised of a random
/// value.
#[verifier::external_body]
fn new_trade_id() -> (r: String)
    ensures
        r@.len() == 36,
{
    uuid::Uuid::new_v4().to_string()
}

/// The preconditions an entry leg needs from the caller: a known
/// market, in-range numbers, space in the tables, and room in the
/// bankroll.
pub open spec fn entry_ready(
    v: LedgerView,
    market: Seq<char>,
    side: Seq<char>,
    limit_price: int,
    shares: int,
    position_usd: int,
    fee: int,
) -> bool {
    &&& find_market(v.markets, market, 0) < v.markets.len()
    &&& 0 <= limit_price <= SCALE
    &&& 0 < shares <= SIZE_LIMIT
    &&& 0 <= position_usd <= AMOUNT_LIMIT
    &&& 0 <= fee <= AMOUNT_LIMIT
    &&& v.trades.len() < TABLE_CAP
    &&& v.positions.len() < TABLE_CAP
    &&& v.bankroll_log.len() + 2 <= TABLE_CAP
    &&& -BALANCE_LIMIT <= spec_current_bankroll(v) - position_usd - fee
    &&& spec_current_bankroll(v) <= BALANCE_LIMIT
    &&& {
        let k = find_open_slot(v.positions, market, side, 0);
        k < v.positions.len() ==> v.positions[k].size + shares <= SIZE_LIMIT
    }
}

/// The ledger after a successful entry: the trade appended, the
/// position upserted, the `trade` debit and, when the fee is positive,
/// the `trading_fee` debit.
pub open spec fn entry_effect(
    v1: LedgerView,
    v2: LedgerView,
    market: Seq<char>,
    token: Seq<char>,
    side: Seq<char>,
    limit_price: int,
    shares: int,
    position_usd: int,
    fee: int,
    paper: bool,
    day: int,
    weather: bool,
) -> bool {
    &&& v2 == (LedgerView {
        trades: v2.trades,
        positions: v2.positions,
        bankroll_log: v2.bankroll_log,
        ..v1
    })
    &&& v2.trades.len() == v1.trades.len() + 1
    &&& v2.trades.last().market_condition_id@ == market
    &&& v2.trades.last().token_id@ == token
    &&& v2.trades.last().side@ == side
    &&& v2.trades.last().price == limit_price
    &&& v2.trades.last().size == shares
    &&& v2.trades.last().paper == paper
    &&& v2.trades.last().entry_fee == fee
    &&& upsert_post(
        v1.positions,
        v2.positions,
        market,
        token,
        side,
        limit_price,
        shares,
        None,
        Ok(()),
    )
    &&& v2.bankroll_log.len() == v1.bankroll_log.len() + (if fee > 0 {
        2int
    } else {
        1int
    })
    &&& v2.bankroll_log[v1.bankroll_log.len() as int].entry_type is Trade
    &&& v2.bankroll_log[v1.bankroll_log.len() as int].amount == -position_usd
    &&& v2.bankroll_log[v1.bankroll_log.len() as int].balance_after == spec_current_bankroll(v1)
        - position_usd
    &&& v2.bankroll_log[v1.bankroll_log.len() as int].weather == weather
    &&& v2.bankroll_log[v1.bankroll_log.len() as int].day == day
    &&& (fee > 0 ==> {
        &&& v2.bankroll_log.last().entry_type is TradingFee
        &&& v2.bankroll_log.last().amount == -fee
        &&& v2.bankroll_log.last().balance_after == spec_current_bankroll(v1) - position_usd
            - fee
    })
}

impl Executor {
    pub fn new(trading_mode: TradingMode, fee_rate: i64) -> (r: Executor)
        ensures
            r.trading_mode == trading_mode,
            r.fee_rate == fee_rate,
    {
        Executor { trading_mode, fee_rate }
    }

    /// Simulate a fill: a fresh trade id, a `filled` trade row, the
    /// upserted position, and the bankroll debits. Fails only when the
    /// random id collides with a stored one, leaving the ledger
    /// unchanged.
    pub fn execute_paper(
        &self,
        db: &mut Database,
        intent: &TradeIntent,
        day: i64,
        weather: bool,
    ) -> (r: Result<TradeResult, LedgerError>)
        requires
            old(db).wf(),
            0 <= self.fee_rate <= SCALE,
            intent.sizing.reject_reason is None,
            entry_ready(
                old(db)@,
                intent.opportunity.market_id@,
                spec_side_label(intent.opportunity.side),
                intent.sizing.limit_price as int,
                intent.sizing.shares as int,
                intent.sizing.position_usd as int,
                self.fee_rate * intent.sizing.position_usd / (SCALE as int),
            ),
        ensures
            final(db).wf(),
            match r {
                Ok(res) => {
                    &&& entry_effect(
                        old(db)@,
                        final(db)@,
                        intent.opportunity.market_id@,
                        intent.token_id@,
                        spec_side_label(intent.opportunity.side),
                        intent.sizing.limit_price as int,
                        intent.sizing.shares as int,
                        intent.sizing.position_usd as int,
                        self.fee_rate * intent.sizing.position_usd / (SCALE as int),
                        true,
                        day as int,
                        weather,
                    )
                    &&& res.market_condition_id@ == intent.opportunity.market_id@
                    &&& res.token_id@ == intent.token_id@
                    &&& res.side == intent.opportunity.side
                    &&& res.price == intent.sizing.limit_price
                    &&& res.size == intent.sizing.shares
                    &&& res.status@ == "filled"@
                    &&& res.paper == true
                },
                Err(e) => {
                    &&& e == LedgerError::DuplicateTradeId
                    &&& final(db)@ == old(db)@
                },
            },
    {
        let trade_id = new_trade_id();
        self.record_entry(
            db,
            intent,
            trade_id,
            String::from_str("filled"),
            true,
            day,
            weather,
        )
    }

    /// Record a live fill under the order id and status the
    /// order-placement service returned.
    pub fn record_live_execution(
        &self,
        db: &mut Database,
        intent: &TradeIntent,
        order_id: String,
        status: String,
        day: i64,
        weather: bool,
    ) -> (r: Result<TradeResult, LedgerError>)
        requires
            old(db).wf(),
            0 <= self.fee_rate <= SCALE,
            intent.sizing.reject_reason is None,
            entry_ready(
                old(db)@,
                intent.opportunity.market_id@,
                spec_side_label(intent.opportunity.side),
                intent.sizing.limit_price as int,
                intent.sizing.shares as int,
                intent.sizing.position_usd as int,
                self.fee_rate * intent.sizing.position_usd / (SCALE as int),
            ),
        ensures
            final(db).wf(),
            match r {
                Ok(res) => {
                    &&& entry_effect(
                        old(db)@,
                        final(db)@,
                        intent.opportunity.market_id@,
                        intent.token_id@,
                        spec_side_label(intent.opportunity.side),
                        intent.sizing.limit_price as int,
                        intent.sizing.shares as int,
                        intent.sizing.position_usd as int,
                        self.fee_rate * intent.sizing.position_usd / (SCALE as int),
                        false,
                        day as int,
                        weather,
                    )
                    &&& res.trade_id@ == order_id@
                    &&& res.status@ == status@
                    &&& res.paper == false
                },
                Err(e) => {
                    &&& e == LedgerError::DuplicateTradeId
                    &&& spec_has_trade(old(db)@.trades, order_id@)
                    &&& final(db)@ == old(db)@
                },
            },
    {
        self.record_entry(db, intent, order_id, status, false, day, weather)
    }

    /// The common ledger work of an entry.
    fn record_entry(
        &self,
        db: &mut Database,
        intent: &TradeIntent,
        trade_id: String,
        status: String,
        paper: bool,
        day: i64,
        weather: bool,
    ) -> (r: Result<TradeResult, LedgerError>)
        requires
            old(db).wf(),
            0 <= self.fee_rate <= SCALE,
            entry_ready(
                old(db)@,
                intent.opportunity.market_id@,
                spec_side_label(intent.opportunity.side),
                intent.sizing.limit_price as int,
                intent.sizing.shares as int,
                intent.sizing.position_usd as int,
                self.fee_rate * intent.sizing.position_usd / (SCALE as int),
            ),
        ensures
            final(db).wf(),
            match r {
                Ok(res) => {
                    &&& entry_effect(
                        old(db)@,
                        final(db)@,
                        intent.opportunity.market_id@,
                        intent.token_id@,
                        spec_side_label(intent.opportunity.side),
                        intent.sizing.limit_price as int,
                        intent.sizing.shares as int,
                        intent.sizing.position_usd as int,
                        self.fee_rate * intent.sizing.position_usd / (SCALE as int),
                        paper,
                        day as int,
                        weather,
                    )
                    &&& res.trade_id@ == trade_id@
                    &&& res.market_condition_id@ == intent.opportunity.market_id@
                    &&& res.token_id@ == intent.token_id@
                    &&& res.side == intent.opportunity.side
                    &&& res.price == intent.sizing.limit_price
                    &&& res.size == intent.sizing.shares
                    &&& res.status@ == status@
                    &&& res.paper == paper
                },
                Err(e) => {
                    &&& e == LedgerError::DuplicateTradeId
                    &&& spec_has_trade(old(db)@.trades, trade_id@)
                    &&& final(db)@ == old(db)@
                },
            },
    {
        proof {
            crate::money::lemma_mul_div_le(
                self.fee_rate as int,
                SCALE as int,
                intent.sizing.position_usd as int,
            );
        }
        let entry_fee = mul_div_floor(self.fee_rate, intent.sizing.position_usd, SCALE);
        let side_label = intent.opportunity.side.label();
        let res = db.insert_trade(
            trade_id.as_str(),
            intent.opportunity.market_id.as_str(),
            intent.token_id.as_str(),
            side_label.as_str(),
            intent.sizing.limit_price,
            intent.sizing.shares,
            status.as_str(),
            paper,
            entry_fee,
        );
        match res {
            Ok(()) => {}
            Err(e) => {
                proof {
                    assert(e == LedgerError::DuplicateTradeId);
                }
                return Err(LedgerError::DuplicateTradeId);
            }
        }
        let up = db.upsert_position(
            intent.opportunity.market_id.as_str(),
            intent.token_id.as_str(),
            side_label.as_str(),
            intent.sizing.limit_price,
            intent.sizing.shares,
        );
        match up {
            Ok(()) => {}
            Err(_) => {
                proof {
                    assert(false);
                }
                return Err(LedgerError::CapacityExceeded);
            }
        }
        let before = db.get_current_bankroll();
        let after = before - intent.sizing.position_usd;
        let r1 = db.log_bankroll_entry(
            EntryKind::Trade,
            -intent.sizing.position_usd,
            after,
            String::from_str("Position entry"),
            day,
            weather,
        );
        match r1 {
            Ok(()) => {}
            Err(_) => {
                proof {
                    assert(false);
                }
                return Err(LedgerError::CapacityExceeded);
            }
        }
        if entry_fee > 0 {
            let after_fee = after - entry_fee;
            let r2 = db.log_bankroll_entry(
                EntryKind::TradingFee,
                -entry_fee,
                after_fee,
                String::from_str("Entry fee"),
                day,
                weather,
            );
            match r2 {
                Ok(()) => {}
                Err(_) => {
                    proof {
                        assert(false);
                    }
                    return Err(LedgerError::CapacityExceeded);
                }
            }
        }
        Ok(
            TradeResult {
                trade_id,
                market_condition_id: intent.opportunity.market_id.clone(),
                token_id: intent.token_id.clone(),
                side: intent.opportunity.side,
                price: intent.sizing.limit_price,
                size: intent.sizing.shares,
                status,
                paper,
            },
        )
    }
}

/// The preconditions an exit leg needs: an open position for the
/// slot, in-range numbers, table space and bankroll room.
pub open spec fn exit_ready(
    v: LedgerView,
    market: Seq<char>,
    side: Seq<char>,
    exit_price: int,
    proceeds: int,
    fee: int,
) -> bool {
    &&& find_market(v.markets, market, 0) < v.markets.len()
    &&& find_open_slot(v.positions, market, side, 0) < v.positions.len()
    &&& 0 <= exit_price <= SCALE
    &&& 0 <= proceeds <= AMOUNT_LIMIT
    &&& 0 <= fee <= AMOUNT_LIMIT
    &&& v.trades.len() < TABLE_CAP
    &&& v.bankroll_log.len() + 2 <= TABLE_CAP
    &&& -BALANCE_LIMIT <= spec_current_bankroll(v) + proceeds - fee
    &&& spec_current_bankroll(v) + proceeds <= BALANCE_LIMIT
}

impl Executor {
    /// Close a position at `exit_price`: a `SELL_<side>` trade row, the
    /// row closed with its realized P&L, an `exit` credit of the
    /// proceeds, and an exit fee debit when the fee rate is positive.
    /// Returns the realized P&L. Fails only on a random id collision,
    /// leaving the ledger unchanged.
    pub fn exit_paper(
        &self,
        db: &mut Database,
        position: &PositionRow,
        exit_price: i64,
        day: i64,
        weather: bool,
    ) -> (r: Result<i64, LedgerError>)
        requires
            old(db).wf(),
            0 <= self.fee_rate <= SCALE,
            0 <= position.size <= SIZE_LIMIT,
            exit_ready(
                old(db)@,
                position.market_condition_id@,
                position.side@,
                exit_price as int,
                exit_price * position.size / (SCALE as int),
                self.fee_rate * (exit_price * position.size / (SCALE as int)) / (SCALE as int),
            ),
        ensures
            final(db).wf(),
            match r {
                Ok(pnl) => ({
                    let v1 = old(db)@;
                    let v2 = final(db)@;
                    let k = find_open_slot(v1.positions, position.market_condition_id@, position.side@, 0);
                    let proceeds = exit_price * position.size / (SCALE as int);
                    let fee = self.fee_rate * proceeds / (SCALE as int);
                    &&& pnl == crate::ledger::pnl_of(
                        v1.positions[k].entry_price as int,
                        exit_price as int,
                        v1.positions[k].size as int,
                    )
                    &&& v2 == (LedgerView {
                        trades: v2.trades,
                        positions: v2.positions,
                        bankroll_log: v2.bankroll_log,
                        ..v1
                    })
                    &&& v2.trades.len() == v1.trades.len() + 1
                    &&& v2.trades.last().market_condition_id@ == position.market_condition_id@
                    &&& v2.trades.last().token_id@ == position.token_id@
                    &&& v2.trades.last().side@ == "SELL_"@ + position.side@
                    &&& v2.trades.last().price == exit_price
                    &&& v2.trades.last().size == position.size
                    &&& v2.trades.last().status@ == "filled"@
                    &&& v2.trades.last().paper == true
                    &&& v2.positions.len() == v1.positions.len()
                    &&& v2.positions[k].status@ == "closed"@
                    &&& v2.positions[k].realized_pnl == pnl
                    &&& v2.positions[k].unrealized_pnl == 0
                    &&& (forall|i: int| 0 <= i < v1.positions.len() && i != k ==> v2.positions[i]
                        == v1.positions[i])
                    &&& v2.bankroll_log.len() == v1.bankroll_log.len() + (if fee > 0 {
                        2int
                    } else {
                        1int
                    })
                    &&& v2.bankroll_log[v1.bankroll_log.len() as int].entry_type is Exit
                    &&& v2.bankroll_log[v1.bankroll_log.len() as int].amount == proceeds
                    &&& v2.bankroll_log[v1.bankroll_log.len() as int].balance_after
                        == spec_current_bankroll(v1) + proceeds
                    &&& (fee > 0 ==> v2.bankroll_log.last().entry_type is TradingFee
                        && v2.bankroll_log.last().amount == -fee
                        && v2.bankroll_log.last().balance_after == spec_current_bankroll(v1)
                        + proceeds - fee)
                }),
                Err(e) => {
                    &&& e == LedgerError::DuplicateTradeId
                    &&& final(db)@ == old(db)@
                },
            },
    {
        let trade_id = new_trade_id();
        self.record_exit(
            db,
            position,
            exit_price,
            trade_id,
            String::from_str("filled"),
            true,
            day,
            weather,
        )
    }

    /// Record a live exit under the order id and status the
    /// order-placement service returned; the ledger work mirrors the
    /// paper exit.
    pub fn record_live_exit(
        &self,
        db: &mut Database,
        position: &PositionRow,
        exit_price: i64,
        order_id: String,
        status: String,
        day: i64,
        weather: bool,
    ) -> (r: Result<i64, LedgerError>)
        requires
            old(db).wf(),
            0 <= self.fee_rate <= SCALE,
            0 <= position.size <= SIZE_LIMIT,
            exit_ready(
                old(db)@,
                position.market_condition_id@,
                position.side@,
                exit_price as int,
                exit_price * position.size / (SCALE as int),
                self.fee_rate * (exit_price * position.size / (SCALE as int)) / (SCALE as int),
            ),
        ensures
            final(db).wf(),
            match r {
                Ok(pnl) => ({
                    let v1 = old(db)@;
                    let v2 = final(db)@;
                    let k = find_open_slot(v1.positions, position.market_condition_id@, position.side@, 0);
                    let proceeds = exit_price * position.size / (SCALE as int);
                    let fee = self.fee_rate * proceeds / (SCALE as int);
                    &&& pnl == crate::ledger::pnl_of(
                        v1.positions[k].entry_price as int,
                        exit_price as int,
                        v1.positions[k].size as int,
                    )
                    &&& v2.trades.len() == v1.trades.len() + 1
                    &&& v2.trades.last().trade_id@ == order_id@
                    &&& v2.trades.last().market_condition_id@ == position.market_condition_id@
                    &&& v2.trades.last().token_id@ == position.token_id@
                    &&& v2.trades.last().side@ == "SELL_"@ + position.side@
                    &&& v2.trades.last().price == exit_price
                    &&& v2.trades.last().size == position.size
                    &&& v2.trades.last().status@ == status@
                    &&& v2.trades.last().paper == false
                    &&& v2.positions[k].status@ == "closed"@
                    &&& v2.bankroll_log[v1.bankroll_log.len() as int].entry_type is Exit
                    &&& v2.bankroll_log[v1.bankroll_log.len() as int].amount == proceeds
                    &&& (fee > 0 ==> v2.bankroll_log.last().entry_type is TradingFee
                        && v2.bankroll_log.last().amount == -fee)
                }),
                Err(e) => {
                    &&& e == LedgerError::DuplicateTradeId
                    &&& spec_has_trade(old(db)@.trades, order_id@)
                    &&& final(db)@ == old(db)@
                },
            },
    {
        self.record_exit(db, position, exit_price, order_id, status, false, day, weather)
    }

    /// The shared ledger work of an exit.
    fn record_exit(
        &self,
        db: &mut Database,
        position: &PositionRow,
        exit_price: i64,
        trade_id: String,
        status: String,
        paper: bool,
        day: i64,
        weather: bool,
    ) -> (r: Result<i64, LedgerError>)
        requires
            old(db).wf(),
            0 <= self.fee_rate <= SCALE,
            0 <= position.size <= SIZE_LIMIT,
            exit_ready(
                old(db)@,
                position.market_condition_id@,
                position.side@,
                exit_price as int,
                exit_price * position.size / (SCALE as int),
                self.fee_rate * (exit_price * position.size / (SCALE as int)) / (SCALE as int),
            ),
        ensures
            final(db).wf(),
            match r {
                Ok(pnl) => ({
                    let v1 = old(db)@;
                    let v2 = final(db)@;
                    let k = find_open_slot(v1.positions, position.market_condition_id@, position.side@, 0);
                    let proceeds = exit_price * position.size / (SCALE as int);
                    let fee = self.fee_rate * proceeds / (SCALE as int);
                    &&& pnl == crate::ledger::pnl_of(
                        v1.positions[k].entry_price as int,
                        exit_price as int,
                        v1.positions[k].size as int,
                    )
                    &&& v2 == (LedgerView {
                        trades: v2.trades,
                        positions: v2.positions,
                        bankroll_log: v2.bankroll_log,
                        ..v1
                    })
                    &&& v2.trades.len() == v1.trades.len() + 1
                    &&& (forall|i: int| 0 <= i < v1.trades.len() ==> v2.trades[i] == v1.trades[i])
                    &&& v2.trades.last().trade_id@ == trade_id@
                    &&& v2.trades.last().market_condition_id@ == position.market_condition_id@
                    &&& v2.trades.last().token_id@ == position.token_id@
                    &&& v2.trades.last().side@ == "SELL_"@ + position.side@
                    &&& v2.trades.last().price == exit_price
                    &&& v2.trades.last().size == position.size
                    &&& v2.trades.last().status@ == status@
                    &&& v2.trades.last().paper == paper
                    &&& v2.positions.len() == v1.positions.len()
                    &&& v2.positions[k].status@ == "closed"@
                    &&& v2.positions[k].realized_pnl == pnl
                    &&& v2.positions[k].unrealized_pnl == 0
                    &&& (forall|i: int| 0 <= i < v1.positions.len() && i != k ==> v2.positions[i]
                        == v1.positions[i])
                    &&& v2.bankroll_log.len() == v1.bankroll_log.len() + (if fee > 0 {
                        2int
                    } else {
                        1int
                    })
                    &&& v2.bankroll_log[v1.bankroll_log.len() as int].entry_type is Exit
                    &&& v2.bankroll_log[v1.bankroll_log.len() as int].amount == proceeds
                    &&& v2.bankroll_log[v1.bankroll_log.len() as int].balance_after
                        == spec_current_bankroll(v1) + proceeds
                    &&& (fee > 0 ==> v2.bankroll_log.last().entry_type is TradingFee
                        && v2.bankroll_log.last().amount == -fee
                        && v2.bankroll_log.last().balance_after == spec_current_bankroll(v1)
                        + proceeds - fee)
                }),
                Err(e) => {
                    &&& e == LedgerError::DuplicateTradeId
                    &&& spec_has_trade(old(db)@.trades, trade_id@)
                    &&& final(db)@ == old(db)@
                },
            },
    {
        proof {
            crate::money::lemma_mul_div_le(
                exit_price as int,
                SCALE as int,
                position.size as int,
            );
            assert(exit_price * position.size == position.size * exit_price)
                by (nonlinear_arith);
        }
        let proceeds = mul_div_floor(exit_price, position.size, SCALE);
        proof {
            crate::money::lemma_mul_div_le(self.fee_rate as int, SCALE as int, proceeds as int);
        }
        let exit_fee = mul_div_floor(self.fee_rate, proceeds, SCALE);
        let mut side_label = String::from_str("SELL_");
        side_label.append(position.side.as_str());
        let res = db.insert_trade(
            trade_id.as_str(),
            position.market_condition_id.as_str(),
            position.token_id.as_str(),
            side_label.as_str(),
            exit_price,
            position.size,
            status.as_str(),
            paper,
            0,
        );
        match res {
            Ok(()) => {}
            Err(e) => {
                proof {
                    assert(e == LedgerError::DuplicateTradeId);
                }
                return Err(LedgerError::DuplicateTradeId);
            }
        }
        let pnl = match db.close_position(
            position.market_condition_id.as_str(),
            position.side.as_str(),
            exit_price,
        ) {
            Ok(p) => p,
            Err(_) => {
                proof {
                    assert(false);
                }
                return Err(LedgerError::NoOpenPosition);
            }
        };
        let before = db.get_current_bankroll();
        let after = before + proceeds;
        let r1 = db.log_bankroll_entry(
            EntryKind::Exit,
            proceeds,
            after,
            String::from_str("Position exit"),
            day,
            weather,
        );
        match r1 {
            Ok(()) => {}
            Err(_) => {
                proof {
                    assert(false);
                }
                return Err(LedgerError::CapacityExceeded);
            }
        }
        if exit_fee > 0 {
            let after_fee = after - exit_fee;
            let r2 = db.log_bankroll_entry(
                EntryKind::TradingFee,
                -exit_fee,
                after_fee,
                String::from_str("Exit fee"),
                day,
                weather,
            );
            match r2 {
                Ok(()) => {}
                Err(_) => {
                    proof {
                        assert(false);
                    }
                    return Err(LedgerError::CapacityExceeded);
                }
            }
        }
        Ok(pnl)
    }
}

/// The stored side word of a trade side.
pub open spec fn spec_side_label(s: TradeSide) -> Seq<char> {
    if s is Yes {
        "YES"@
    } else {
        "NO"@
    }
}

} // verus!
