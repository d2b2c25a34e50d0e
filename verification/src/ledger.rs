//! The ledger: the single source of truth for all trading state.
//!
//! An append-only bankroll log plus materialized tables for markets,
//! trades, positions, per-cycle summaries, API costs, peak bankroll,
//! alerts, weather data and detected opportunities. Every amount is an
//! `i64` in micro-dollars, every price and probability an `i64` in
//! micro-units, and dates are day numbers supplied by the caller.
//!
//! The well-formedness predicate `ledger_wf` carries the ledger's
//! invariants: the bankroll log chains exactly (each row's balance is the
//! previous balance plus the row's amount), a seed entry can only open
//! the log, the peak-bankroll rows rise strictly, at most one open
//! position exists per market and side, every stored unrealized P&L
//! agrees with the stored prices, cycle summaries are numbered
//! contiguously from one and carry exactly their cycle's summed API
//! cost, and no opportunity of a closed cycle stays pending.

use vstd::prelude::*;

use crate::money::{tdiv, SCALE};

verus! {

/// Largest single bankroll movement accepted: one million dollars.
pub const AMOUNT_LIMIT: i64 = 1_000_000_000_000;

/// Largest balance magnitude the ledger stores.
pub const BALANCE_LIMIT: i64 = 1_000_000_000_000_000;

/// Largest cost of a single model call: one thousand dollars.
pub const API_CALL_LIMIT: i64 = 1_000_000_000;

/// Largest position size: one million shares, in micro-shares.
pub const SIZE_LIMIT: i64 = 1_000_000_000_000;

/// Cap on the row count of each table.
pub const TABLE_CAP: usize = 1_000_000;

#[derive(Debug, Clone, Copy, PartialEq, Eq, Structural)]
pub enum EntryKind {
    Seed,
    ApiCost,
    Trade,
    TradingFee,
    Exit,
}

/// One bankroll movement. `day` is a caller-supplied day number and
/// `weather` tags movements on weather markets, so that the daily
/// weather-loss breaker needs no text matching.
#[derive(Debug, Clone)]
pub struct BankrollEntry {
    pub entry_type: EntryKind,
    pub amount: i64,
    pub balance_after: i64,
    pub description: String,
    pub day: i64,
    pub weather: bool,
}

#[derive(Debug, Clone)]
pub struct MarketRow {
    pub condition_id: String,
    pub question: String,
    pub slug: Option<String>,
    pub yes_token_id: Option<String>,
    pub no_token_id: Option<String>,
    pub volume: i64,
    pub liquidity: i64,
    pub end_date: Option<String>,
    pub active: bool,
}

#[derive(Debug, Clone)]
pub struct TradeRow {
    pub trade_id: String,
    pub market_condition_id: String,
    pub token_id: String,
    pub side: String,
    pub price: i64,
    pub size: i64,
    pub status: String,
    pub paper: bool,
    pub entry_fee: i64,
    pub question: Option<String>,
    pub realized_pnl: Option<i64>,
    pub unrealized_pnl: Option<i64>,
    pub position_status: Option<String>,
}

#[derive(Debug, Clone)]
pub struct PositionRow {
    pub market_condition_id: String,
    pub token_id: String,
    pub side: String,
    pub entry_price: i64,
    pub size: i64,
    pub status: String,
    pub current_price: Option<i64>,
    pub unrealized_pnl: i64,
    pub realized_pnl: i64,
    pub estimated_probability: Option<i64>,
    pub question: Option<String>,
}

#[derive(Debug, Clone)]
pub struct CycleRow {
    pub cycle_number: i64,
    pub markets_scanned: i64,
    pub markets_filtered: i64,
    pub trades_placed: i64,
    pub api_cost_usd: i64,
    pub bankroll_before: i64,
    pub bankroll_after: i64,
}

#[derive(Debug, Clone)]
pub struct ApiCostRow {
    pub cycle_number: i64,
    pub market_condition_id: Option<String>,
    pub model: String,
    pub input_tokens: u64,
    pub output_tokens: u64,
    pub cost_usd: i64,
    pub call_type: String,
    pub at: i64,
}

#[derive(Debug, Clone)]
pub struct AlertRow {
    pub market_condition_id: String,
    pub alert_type: String,
    pub details: String,
    pub action_taken: String,
    pub cycle_number: i64,
}

#[derive(Debug, Clone)]
pub struct WeatherSnapshotRow {
    pub cycle_number: i64,
    pub city: String,
    pub forecast_date: String,
    pub ensemble_mean: i64,
    pub ensemble_std: i64,
    pub gefs_count: i32,
    pub ecmwf_count: i32,
    pub bucket_data: String,
}

#[derive(Debug, Clone)]
pub struct WeatherActualRow {
    pub city: String,
    pub forecast_date: String,
    pub wu_actual_high: Option<i64>,
    pub nws_forecast_high: Option<i64>,
    pub ensemble_mean: Option<i64>,
    pub predicted_bucket: Option<String>,
    pub actual_bucket: Option<String>,
    pub prediction_error: Option<i64>,
}

#[derive(Debug, Clone)]
pub struct OpportunityRow {
    pub cycle_number: i64,
    pub condition_id: String,
    pub question: String,
    pub side: String,
    pub market_price: i64,
    pub estimated_probability: i64,
    pub edge: i64,
    pub confidence: i64,
    pub status: String,
    pub reject_reason: Option<String>,
}

#[derive(Debug, Clone, Copy, PartialEq, Eq, Structural)]
pub enum LedgerError {
    CapacityExceeded,
    AmountOutOfRange,
    ForeignKeyViolation,
    DuplicateTradeId,
    NoOpenPosition,
    CycleAlreadyClosed,
    CycleOutOfOrder,
    OpportunityStillPending,
}

/// The ledger's mathematical content: one sequence per table.
pub struct LedgerView {
    pub markets: Seq<MarketRow>,
    pub trades: Seq<TradeRow>,
    pub positions: Seq<PositionRow>,
    pub bankroll_log: Seq<BankrollEntry>,
    pub cycle_log: Seq<CycleRow>,
    pub api_cost_log: Seq<ApiCostRow>,
    pub peaks: Seq<i64>,
    pub alerts: Seq<AlertRow>,
    pub weather_snapshots: Seq<WeatherSnapshotRow>,
    pub opportunities: Seq<OpportunityRow>,
    pub weather_actuals: Seq<WeatherActualRow>,
}

pub struct Database {
    markets: Vec<MarketRow>,
    trades: Vec<TradeRow>,
    positions: Vec<PositionRow>,
    bankroll_log: Vec<BankrollEntry>,
    cycle_log: Vec<CycleRow>,
    api_cost_log: Vec<ApiCostRow>,
    peaks: Vec<i64>,
    alerts: Vec<AlertRow>,
    weather_snapshots: Vec<WeatherSnapshotRow>,
    opportunities: Vec<OpportunityRow>,
    weather_actuals: Vec<WeatherActualRow>,
}

impl View for Database {
    type V = LedgerView;

    closed spec fn view(&self) -> LedgerView {
        LedgerView {
            markets: self.markets@,
            trades: self.trades@,
            positions: self.positions@,
            bankroll_log: self.bankroll_log@,
            cycle_log: self.cycle_log@,
            api_cost_log: self.api_cost_log@,
            peaks: self.peaks@,
            alerts: self.alerts@,
            weather_snapshots: self.weather_snapshots@,
            opportunities: self.opportunities@,
            weather_actuals: self.weather_actuals@,
        }
    }
}

// ─── Spec views of single rows ───

/// Whether a position row is open.
pub open spec fn is_open(p: PositionRow) -> bool {
    p.status@ == "open"@
}

/// Whether two position rows name the same market and side.
pub open spec fn same_slot(p: PositionRow, q: PositionRow) -> bool {
    p.market_condition_id@ == q.market_condition_id@ && p.side@ == q.side@
}

/// The dollars at risk in a position: entry price times size, floored.
pub open spec fn exposure_of(p: PositionRow) -> int {
    p.entry_price * p.size / (SCALE as int)
}

/// The unrealized profit a price implies: `(current - entry) * size`.
pub open spec fn pnl_of(entry: int, current: int, size: int) -> int {
    tdiv((current - entry) * size, SCALE as int)
}

/// A position row with its prices and size in range, and its stored
/// unrealized P&L exactly what its stored prices imply.
pub open spec fn position_row_wf(p: PositionRow) -> bool {
    &&& 0 <= p.entry_price <= SCALE
    &&& 0 <= p.size <= SIZE_LIMIT
    &&& (p.current_price matches Some(c) ==> 0 <= c <= SCALE)
    &&& (is_open(p) ==> match p.current_price {
        Some(c) => p.unrealized_pnl == pnl_of(p.entry_price as int, c as int, p.size as int),
        None => true,
    })
}

// ─── Spec sums ───

/// The current bankroll: the last logged balance, or zero.
pub open spec fn spec_current_bankroll(v: LedgerView) -> int {
    if v.bankroll_log.len() == 0 {
        0
    } else {
        v.bankroll_log.last().balance_after as int
    }
}

/// The seed the ledger opened with: the first row's balance when that
/// row is a seed, zero otherwise.
pub open spec fn spec_initial_seed(v: LedgerView) -> int {
    if v.bankroll_log.len() > 0 && v.bankroll_log[0].entry_type is Seed {
        v.bankroll_log[0].balance_after as int
    } else {
        0
    }
}

/// The stored peak bankroll: the last peak row, or zero.
pub open spec fn spec_peak(v: LedgerView) -> int {
    if v.peaks.len() == 0 {
        0
    } else {
        v.peaks.last() as int
    }
}

/// Sum of `entry_price * size` over the open positions of `ps`.
pub open spec fn sum_exposure(ps: Seq<PositionRow>) -> int
    decreases ps.len(),
{
    if ps.len() == 0 {
        0
    } else {
        sum_exposure(ps.drop_last()) + if is_open(ps.last()) {
            exposure_of(ps.last())
        } else {
            0
        }
    }
}

/// Sum of the API costs logged for cycle `c`.
pub open spec fn sum_cycle_cost(rows: Seq<ApiCostRow>, c: int) -> int
    decreases rows.len(),
{
    if rows.len() == 0 {
        0
    } else {
        sum_cycle_cost(rows.drop_last(), c) + if rows.last().cycle_number == c {
            rows.last().cost_usd as int
        } else {
            0
        }
    }
}

/// Sum of the API costs logged at or after time `cutoff`.
pub open spec fn sum_cost_since(rows: Seq<ApiCostRow>, cutoff: int) -> int
    decreases rows.len(),
{
    if rows.len() == 0 {
        0
    } else {
        sum_cost_since(rows.drop_last(), cutoff) + if rows.last().at >= cutoff {
            rows.last().cost_usd as int
        } else {
            0
        }
    }
}

/// Sum of the magnitudes of all trading-fee entries.
pub open spec fn sum_fees(rows: Seq<BankrollEntry>) -> int
    decreases rows.len(),
{
    if rows.len() == 0 {
        0
    } else {
        sum_fees(rows.drop_last()) + if rows.last().entry_type is TradingFee {
            abs_of(rows.last().amount as int)
        } else {
            0
        }
    }
}

/// Sum of the magnitudes of weather-tagged trade losses on `day`.
pub open spec fn sum_weather_losses(rows: Seq<BankrollEntry>, day: int) -> int
    decreases rows.len(),
{
    if rows.len() == 0 {
        0
    } else {
        sum_weather_losses(rows.drop_last(), day) + if rows.last().entry_type is Trade
            && rows.last().amount < 0 && rows.last().weather && rows.last().day == day {
            abs_of(rows.last().amount as int)
        } else {
            0
        }
    }
}


/// The open rows of the positions table, in order.
pub open spec fn open_rows(ps: Seq<PositionRow>) -> Seq<PositionRow>
    decreases ps.len(),
{
    if ps.len() == 0 {
        Seq::empty()
    } else if is_open(ps.last()) {
        open_rows(ps.drop_last()).push(ps.last())
    } else {
        open_rows(ps.drop_last())
    }
}

/// The index of the first open row for (market, side), if any.
pub open spec fn find_open_slot(ps: Seq<PositionRow>, market: Seq<char>, side: Seq<char>, from: int) -> int
    decreases ps.len() - from,
{
    if from < 0 || from >= ps.len() {
        ps.len() as int
    } else if is_open(ps[from]) && ps[from].market_condition_id@ == market && ps[from].side@
        == side {
        from
    } else {
        find_open_slot(ps, market, side, from + 1)
    }
}

/// Whether some open row exists for the market, on either side.
pub open spec fn spec_has_open_position(ps: Seq<PositionRow>, market: Seq<char>) -> bool {
    exists|i: int|
        0 <= i < ps.len() && is_open(#[trigger] ps[i]) && ps[i].market_condition_id@ == market
}

/// The size-weighted mean entry price of two lots.
pub open spec fn agg_entry_price(e1: int, s1: int, e2: int, s2: int) -> int
    recommends
        s1 + s2 > 0,
{
    (e1 * s1 + e2 * s2) / (s1 + s2)
}

pub open spec fn abs_of(n: int) -> int {
    if n >= 0 {
        n
    } else {
        -n
    }
}

// ─── Well-formedness ───

/// The bankroll log chains: each row's balance is the previous row's
/// balance (zero before the first row) plus the row's amount.
pub open spec fn bankroll_chained(bl: Seq<BankrollEntry>) -> bool
    decreases bl.len(),
{
    if bl.len() == 0 {
        true
    } else {
        &&& bankroll_chained(bl.drop_last())
        &&& bl.last().balance_after == spec_last_balance(bl.drop_last()) + bl.last().amount
    }
}

/// The last balance of a log, or zero when it is empty.
pub open spec fn spec_last_balance(bl: Seq<BankrollEntry>) -> int {
    if bl.len() == 0 {
        0
    } else {
        bl.last().balance_after as int
    }
}

/// The bankroll log: chained, a seed only as the first row, and every
/// value in range.
pub open spec fn bankroll_wf(bl: Seq<BankrollEntry>) -> bool {
    &&& bankroll_chained(bl)
    &&& forall|i: int| 1 <= i < bl.len() ==> !((#[trigger] bl[i]).entry_type is Seed)
    &&& forall|i: int|
        0 <= i < bl.len() ==> -AMOUNT_LIMIT <= (#[trigger] bl[i]).amount <= AMOUNT_LIMIT
            && -BALANCE_LIMIT <= bl[i].balance_after <= BALANCE_LIMIT
    &&& bl.len() <= TABLE_CAP
}

/// The positions table: every row well-formed, and at most one open row
/// per market and side.
pub open spec fn positions_wf(ps: Seq<PositionRow>) -> bool {
    &&& forall|i: int| 0 <= i < ps.len() ==> position_row_wf(#[trigger] ps[i])
    &&& forall|i: int, j: int|
        0 <= i < j < ps.len() && is_open(#[trigger] ps[i]) && is_open(#[trigger] ps[j])
            ==> !same_slot(ps[i], ps[j])
    &&& ps.len() <= TABLE_CAP
}

/// Cycle summaries: numbered contiguously from one, each carrying
/// exactly its cycle's summed API cost.
pub open spec fn cycles_wf(cycle_log: Seq<CycleRow>, api_cost_log: Seq<ApiCostRow>) -> bool {
    &&& forall|i: int|
        0 <= i < cycle_log.len() ==> (#[trigger] cycle_log[i]).cycle_number == i + 1
    &&& forall|i: int|
        0 <= i < cycle_log.len() ==> (#[trigger] cycle_log[i]).api_cost_usd
            == sum_cycle_cost(api_cost_log, i + 1)
    &&& cycle_log.len() <= TABLE_CAP
}

/// No opportunity of a closed cycle stays pending.
pub open spec fn opportunities_wf(opportunities: Seq<OpportunityRow>, closed_cycles: int) -> bool {
    &&& forall|i: int|
        0 <= i < opportunities.len() && (#[trigger] opportunities[i]).cycle_number
            <= closed_cycles ==> opportunities[i].status@ != "pending"@
    &&& opportunities.len() <= TABLE_CAP
}

pub open spec fn api_log_wf(rows: Seq<ApiCostRow>) -> bool {
    &&& forall|i: int| 0 <= i < rows.len() ==> 0 <= (#[trigger] rows[i]).cost_usd <= API_CALL_LIMIT
    &&& rows.len() <= TABLE_CAP
}

pub open spec fn trades_wf(trades: Seq<TradeRow>, markets: Seq<MarketRow>) -> bool {
    &&& forall|i: int, j: int|
        0 <= i < j < trades.len() ==> (#[trigger] trades[i]).trade_id@ != (
        #[trigger] trades[j]).trade_id@
    &&& forall|i: int|
        0 <= i < trades.len() ==> exists|m: int|
            0 <= m < markets.len() && (#[trigger] trades[i]).market_condition_id@ == markets[
                m
            ].condition_id@
    &&& trades.len() <= TABLE_CAP
}

pub open spec fn markets_wf(ms: Seq<MarketRow>) -> bool {
    &&& forall|i: int, j: int|
        0 <= i < j < ms.len() ==> (#[trigger] ms[i]).condition_id@ != (
        #[trigger] ms[j]).condition_id@
    &&& ms.len() <= TABLE_CAP
}

/// A strictly rising run.
pub open spec fn strictly_rising(s: Seq<i64>) -> bool
    decreases s.len(),
{
    if s.len() <= 1 {
        true
    } else {
        strictly_rising(s.drop_last()) && s[s.len() - 2] < s.last()
    }
}

/// The peak table rises strictly and stays in range.
pub open spec fn peaks_wf(peaks: Seq<i64>) -> bool {
    &&& strictly_rising(peaks)
    &&& forall|i: int| 0 <= i < peaks.len() ==> -BALANCE_LIMIT <= (#[trigger] peaks[i])
        <= BALANCE_LIMIT
}

/// The ledger invariant.
pub open spec fn ledger_wf(v: LedgerView) -> bool {
    &&& bankroll_wf(v.bankroll_log)
    &&& positions_wf(v.positions)
    &&& cycles_wf(v.cycle_log, v.api_cost_log)
    &&& opportunities_wf(v.opportunities, v.cycle_log.len() as int)
    &&& api_log_wf(v.api_cost_log)
    &&& trades_wf(v.trades, v.markets)
    &&& markets_wf(v.markets)
    &&& peaks_wf(v.peaks)
    &&& v.alerts.len() <= TABLE_CAP
    &&& v.weather_snapshots.len() <= TABLE_CAP
    &&& v.weather_actuals.len() <= TABLE_CAP
}


// ─── Invariant transfer lemmas ───

/// Fields other than the one a method touches carry their part of the
/// invariant over unchanged.
pub open spec fn same_except_bankroll(v1: LedgerView, v2: LedgerView) -> bool {
    v2 == (LedgerView { bankroll_log: v2.bankroll_log, ..v1 })
}

pub open spec fn same_except_peaks(v1: LedgerView, v2: LedgerView) -> bool {
    v2 == (LedgerView { peaks: v2.peaks, ..v1 })
}

pub open spec fn same_except_positions(v1: LedgerView, v2: LedgerView) -> bool {
    v2 == (LedgerView { positions: v2.positions, ..v1 })
}

/// A change confined to the positions table that keeps that table
/// well-formed keeps the whole ledger well-formed.
proof fn lemma_wf_positions(v1: LedgerView, v2: LedgerView)
    requires
        ledger_wf(v1),
        same_except_positions(v1, v2),
        positions_wf(v2.positions),
    ensures
        ledger_wf(v2),
{
}

/// Appending a chained, in-range, non-seed-after-start entry keeps the
/// ledger well-formed.
proof fn lemma_wf_bankroll_push(v1: LedgerView, v2: LedgerView, e: BankrollEntry)
    requires
        ledger_wf(v1),
        same_except_bankroll(v1, v2),
        v2.bankroll_log == v1.bankroll_log.push(e),
        v1.bankroll_log.len() < TABLE_CAP,
        e.balance_after == spec_current_bankroll(v1) + e.amount,
        e.entry_type is Seed ==> v1.bankroll_log.len() == 0,
        -AMOUNT_LIMIT <= e.amount <= AMOUNT_LIMIT,
        -BALANCE_LIMIT <= e.balance_after <= BALANCE_LIMIT,
    ensures
        ledger_wf(v2),
{
    let bl = v1.bankroll_log;
    let bl2 = v2.bankroll_log;
    assert(bl2.drop_last() =~= bl);
    assert(bankroll_chained(bl2));
    assert forall|i: int| 1 <= i < bl2.len() implies !((#[trigger] bl2[i]).entry_type
        is Seed) by {
        if i < bl2.len() - 1 {
            assert(bl2[i] == bl[i]);
        }
    }
    assert forall|i: int| 0 <= i < bl2.len() implies -AMOUNT_LIMIT <= (
    #[trigger] bl2[i]).amount <= AMOUNT_LIMIT && -BALANCE_LIMIT <= bl2[i].balance_after
        <= BALANCE_LIMIT by {
        if i < bl2.len() - 1 {
            assert(bl2[i] == bl[i]);
        }
    }
    assert(bankroll_wf(bl2));
}

/// Appending a strictly larger (or first) peak keeps the ledger
/// well-formed.
proof fn lemma_wf_peaks_push(v1: LedgerView, v2: LedgerView, current: i64)
    requires
        ledger_wf(v1),
        same_except_peaks(v1, v2),
        v2.peaks == v1.peaks.push(current),
        v1.peaks.len() == 0 || current > spec_peak(v1),
        -BALANCE_LIMIT <= current <= BALANCE_LIMIT,
    ensures
        ledger_wf(v2),
{
    let p1 = v1.peaks;
    let p2 = v2.peaks;
    assert(p2.drop_last() =~= p1);
    assert(strictly_rising(p2));
    assert forall|i: int| 0 <= i < p2.len() implies -BALANCE_LIMIT <= (#[trigger] p2[i])
        <= BALANCE_LIMIT by {
        if i < p2.len() - 1 {
            assert(p2[i] == p1[i]);
        }
    }
    assert(peaks_wf(p2));
}

impl Database {
    pub open spec fn wf(&self) -> bool {
        ledger_wf(self@)
    }

    /// A fresh, empty ledger.
    pub fn open_in_memory() -> (r: Database)
        ensures
            r.wf(),
            r@.markets.len() == 0,
            r@.trades.len() == 0,
            r@.positions.len() == 0,
            r@.bankroll_log.len() == 0,
            r@.cycle_log.len() == 0,
            r@.api_cost_log.len() == 0,
            r@.peaks.len() == 0,
            r@.alerts.len() == 0,
            r@.weather_snapshots.len() == 0,
            r@.opportunities.len() == 0,
            r@.weather_actuals.len() == 0,
    {
        Database {
            markets: Vec::new(),
            trades: Vec::new(),
            positions: Vec::new(),
            bankroll_log: Vec::new(),
            cycle_log: Vec::new(),
            api_cost_log: Vec::new(),
            peaks: Vec::new(),
            alerts: Vec::new(),
            weather_snapshots: Vec::new(),
            opportunities: Vec::new(),
            weather_actuals: Vec::new(),
        }
    }

    /// The last logged balance, or zero on an empty log.
    pub fn get_current_bankroll(&self) -> (r: i64)
        requires
            self.wf(),
        ensures
            r == spec_current_bankroll(self@),
    {
        if self.bankroll_log.len() == 0 {
            0
        } else {
            self.bankroll_log[self.bankroll_log.len() - 1].balance_after
        }
    }

    #[verifier::rlimit(100)]
    /// Append one bankroll movement. The caller computes `balance_after`
    /// as the current balance plus `amount` — the log chains by
    /// construction. Fails if a seed is logged onto a non-empty log, a
    /// value is out of range, or the log is full.
    pub fn log_bankroll_entry(
        &mut self,
        entry_type: EntryKind,
        amount: i64,
        balance_after: i64,
        description: String,
        day: i64,
        weather: bool,
    ) -> (r: Result<(), LedgerError>)
        requires
            old(self).wf(),
            balance_after == spec_current_bankroll(old(self)@) + amount,
        ensures
            final(self).wf(),
            match r {
                Ok(()) => {
                    &&& !(entry_type is Seed) || old(self)@.bankroll_log.len() == 0
                    &&& -AMOUNT_LIMIT <= amount <= AMOUNT_LIMIT
                    &&& -BALANCE_LIMIT <= balance_after <= BALANCE_LIMIT
                    &&& old(self)@.bankroll_log.len() < TABLE_CAP
                    &&& final(self)@ == LedgerView {
                        bankroll_log: old(self)@.bankroll_log.push(
                            BankrollEntry {
                                entry_type,
                                amount,
                                balance_after,
                                description,
                                day,
                                weather,
                            },
                        ),
                        ..old(self)@
                    }
                },
                Err(LedgerError::AmountOutOfRange) => {
                    &&& !(-AMOUNT_LIMIT <= amount <= AMOUNT_LIMIT) || !(-BALANCE_LIMIT
                        <= balance_after <= BALANCE_LIMIT) || (entry_type is Seed && old(
                        self,
                    )@.bankroll_log.len() > 0)
                    &&& final(self)@ == old(self)@
                },
                Err(LedgerError::CapacityExceeded) => {
                    &&& old(self)@.bankroll_log.len() >= TABLE_CAP
                    &&& final(self)@ == old(self)@
                },
                Err(_) => false,
            },
    {
        if amount < -AMOUNT_LIMIT || amount > AMOUNT_LIMIT || balance_after < -BALANCE_LIMIT
            || balance_after > BALANCE_LIMIT {
            return Err(LedgerError::AmountOutOfRange);
        }
        let is_seed = match entry_type {
            EntryKind::Seed => true,
            _ => false,
        };
        if is_seed && self.bankroll_log.len() > 0 {
            return Err(LedgerError::AmountOutOfRange);
        }
        if self.bankroll_log.len() >= TABLE_CAP {
            return Err(LedgerError::CapacityExceeded);
        }
        let ghost v1 = self@;
        let e = BankrollEntry { entry_type, amount, balance_after, description, day, weather };
        let ghost entry = e;
        self.bankroll_log.push(e);
        proof {
            lemma_wf_bankroll_push(v1, self@, entry);
        }
        Ok(())
    }

    /// The most recent bankroll movement, when there is one.
    pub fn last_bankroll_entry(&self) -> (r: Option<BankrollEntry>)
        requires
            self.wf(),
        ensures
            match r {
                Some(e) => self@.bankroll_log.len() > 0 && e == self@.bankroll_log.last(),
                None => self@.bankroll_log.len() == 0,
            },
    {
        let n = self.bankroll_log.len();
        if n == 0 {
            None
        } else {
            let e = &self.bankroll_log[n - 1];
            Some(
                BankrollEntry {
                    entry_type: e.entry_type,
                    amount: e.amount,
                    balance_after: e.balance_after,
                    description: e.description.clone(),
                    day: e.day,
                    weather: e.weather,
                },
            )
        }
    }

    /// Seed the bankroll if and only if the log is empty; a second call
    /// changes nothing.
    #[verifier::rlimit(100)]
    pub fn ensure_bankroll_seeded(&mut self, initial: i64) -> (r: Result<(), LedgerError>)
        requires
            old(self).wf(),
            0 <= initial <= AMOUNT_LIMIT,
        ensures
            final(self).wf(),
            r is Ok,
            old(self)@.bankroll_log.len() == 0 ==> {
                &&& final(self)@ == (LedgerView {
                    bankroll_log: final(self)@.bankroll_log,
                    ..old(self)@
                })
                &&& final(self)@.bankroll_log.len() == 1
                &&& final(self)@.bankroll_log[0].entry_type is Seed
                &&& final(self)@.bankroll_log[0].amount == initial
                &&& final(self)@.bankroll_log[0].balance_after == initial
            },
            old(self)@.bankroll_log.len() > 0 ==> final(self)@ == old(self)@,
            spec_current_bankroll(final(self)@) == if old(self)@.bankroll_log.len() == 0 {
                initial as int
            } else {
                spec_current_bankroll(old(self)@)
            },
    {
        if self.bankroll_log.len() == 0 {
            let res = self.log_bankroll_entry(
                EntryKind::Seed,
                initial,
                initial,
                String::from_str("Initial seed funding"),
                0,
                false,
            );
            match res {
                Ok(()) => Ok(()),
                Err(_) => {
                    proof {
                        assert(false);
                    }
                    Err(LedgerError::AmountOutOfRange)
                }
            }
        } else {
            Ok(())
        }
    }

    #[verifier::rlimit(100)]
    /// Update the stored peak: append `current` when it beats the stored
    /// peak (or the table is empty), and return the new peak; otherwise
    /// return the stored peak unchanged.
    pub fn update_peak_bankroll(&mut self, current: i64) -> (r: Result<i64, LedgerError>)
        requires
            old(self).wf(),
            -BALANCE_LIMIT <= current <= BALANCE_LIMIT,
        ensures
            final(self).wf(),
            match r {
                Ok(p) => {
                    &&& (old(self)@.peaks.len() == 0 || current > spec_peak(old(self)@)) ==> {
                        &&& final(self)@ == (LedgerView {
                            peaks: old(self)@.peaks.push(current),
                            ..old(self)@
                        })
                        &&& p == current
                    }
                    &&& !(old(self)@.peaks.len() == 0 || current > spec_peak(old(self)@)) ==> {
                        &&& final(self)@ == old(self)@
                        &&& p == spec_peak(old(self)@)
                    }
                },
                Err(_) => false,
            },
    {
        let ghost v1 = self@;
        let n = self.peaks.len();
        if n == 0 {
            self.peaks.push(current);
            proof {
                lemma_wf_peaks_push(v1, self@, current);
            }
            return Ok(current);
        }
        let last = self.peaks[n - 1];
        if current > last {
            self.peaks.push(current);
            proof {
                lemma_wf_peaks_push(v1, self@, current);
            }
            Ok(current)
        } else {
            Ok(last)
        }
    }

    /// The seed the ledger opened with, or zero.
    pub fn initial_seed(&self) -> (r: i64)
        requires
            self.wf(),
        ensures
            r == spec_initial_seed(self@),
    {
        if self.bankroll_log.len() == 0 {
            return 0;
        }
        let first = &self.bankroll_log[0];
        let is_seed = match first.entry_type {
            EntryKind::Seed => true,
            _ => false,
        };
        if is_seed {
            first.balance_after
        } else {
            0
        }
    }

    /// The stored peak without updating it; zero if none was recorded.
    pub fn get_peak_bankroll(&self) -> (r: i64)
        requires
            self.wf(),
        ensures
            r == spec_peak(self@),
    {
        let n = self.peaks.len();
        if n == 0 {
            0
        } else {
            self.peaks[n - 1]
        }
    }
}


// ─── Positions ───

proof fn lemma_find_open_slot_props(ps: Seq<PositionRow>, m: Seq<char>, s: Seq<char>, from: int)
    requires
        0 <= from <= ps.len(),
    ensures
        from <= find_open_slot(ps, m, s, from) <= ps.len(),
        find_open_slot(ps, m, s, from) < ps.len() ==> {
            let k = find_open_slot(ps, m, s, from);
            is_open(ps[k]) && ps[k].market_condition_id@ == m && ps[k].side@ == s
        },
        forall|j: int|
            from <= j < find_open_slot(ps, m, s, from) ==> !(is_open(#[trigger] ps[j])
                && ps[j].market_condition_id@ == m && ps[j].side@ == s),
    decreases ps.len() - from,
{
    if from < ps.len() && !(is_open(ps[from]) && ps[from].market_condition_id@ == m
        && ps[from].side@ == s) {
        lemma_find_open_slot_props(ps, m, s, from + 1);
    }
}

/// Replacing an open row with a row of the same market and side keeps
/// the positions table well-formed.
proof fn lemma_positions_update_same_slot(ps: Seq<PositionRow>, k: int, newrow: PositionRow)
    requires
        positions_wf(ps),
        0 <= k < ps.len(),
        position_row_wf(newrow),
        is_open(ps[k]),
        newrow.market_condition_id@ == ps[k].market_condition_id@,
        newrow.side@ == ps[k].side@,
    ensures
        positions_wf(ps.update(k, newrow)),
{
    let ps2 = ps.update(k, newrow);
    assert forall|i: int, j: int|
        0 <= i < j < ps2.len() && is_open(#[trigger] ps2[i]) && is_open(#[trigger] ps2[j])
            implies !same_slot(ps2[i], ps2[j]) by {
        if i != k && j != k {
            assert(ps2[i] == ps[i] && ps2[j] == ps[j]);
        } else if i == k {
            assert(ps2[j] == ps[j]);
            assert(!same_slot(ps[k], ps[j]));
        } else {
            assert(ps2[i] == ps[i]);
            assert(!same_slot(ps[i], ps[k]));
        }
    }
    assert forall|i: int| 0 <= i < ps2.len() implies position_row_wf(#[trigger] ps2[i]) by {
        if i != k {
            assert(ps2[i] == ps[i]);
        }
    }
}

/// Closing a row (or any update that leaves it closed) keeps the table
/// well-formed.
proof fn lemma_positions_update_closed(ps: Seq<PositionRow>, k: int, newrow: PositionRow)
    requires
        positions_wf(ps),
        0 <= k < ps.len(),
        position_row_wf(newrow),
        !is_open(newrow),
    ensures
        positions_wf(ps.update(k, newrow)),
{
    let ps2 = ps.update(k, newrow);
    assert forall|i: int, j: int|
        0 <= i < j < ps2.len() && is_open(#[trigger] ps2[i]) && is_open(#[trigger] ps2[j])
            implies !same_slot(ps2[i], ps2[j]) by {
        assert(i != k && j != k);
        assert(ps2[i] == ps[i] && ps2[j] == ps[j]);
    }
    assert forall|i: int| 0 <= i < ps2.len() implies position_row_wf(#[trigger] ps2[i]) by {
        if i != k {
            assert(ps2[i] == ps[i]);
        }
    }
}

/// Appending an open row whose slot no open row holds keeps the table
/// well-formed.
proof fn lemma_positions_push(ps: Seq<PositionRow>, newrow: PositionRow)
    requires
        positions_wf(ps),
        ps.len() < TABLE_CAP,
        position_row_wf(newrow),
        forall|j: int|
            0 <= j < ps.len() ==> !(is_open(#[trigger] ps[j]) && ps[j].market_condition_id@
                == newrow.market_condition_id@ && ps[j].side@ == newrow.side@),
    ensures
        positions_wf(ps.push(newrow)),
{
    let ps2 = ps.push(newrow);
    assert forall|i: int, j: int|
        0 <= i < j < ps2.len() && is_open(#[trigger] ps2[i]) && is_open(#[trigger] ps2[j])
            implies !same_slot(ps2[i], ps2[j]) by {
        if j < ps2.len() - 1 {
            assert(ps2[i] == ps[i] && ps2[j] == ps[j]);
        } else {
            assert(ps2[i] == ps[i]);
            assert(ps2[j] == newrow);
        }
    }
    assert forall|i: int| 0 <= i < ps2.len() implies position_row_wf(#[trigger] ps2[i]) by {
        if i < ps2.len() - 1 {
            assert(ps2[i] == ps[i]);
        }
    }
}

impl Database {
    /// Find the open row for (market, side), if any; the table length
    /// otherwise.
    fn find_open_slot_exec(&self, market: &String, side: &String) -> (r: usize)
        requires
            self.wf(),
        ensures
            r == find_open_slot(self@.positions, market@, side@, 0),
    {
        proof {
            lemma_find_open_slot_props(self@.positions, market@, side@, 0);
        }
        let n = self.positions.len();
        let mut i: usize = 0;
        while i < n
            invariant
                0 <= i <= n,
                n == self@.positions.len(),
                i <= find_open_slot(self@.positions, market@, side@, 0),
                forall|j: int|
                    0 <= j < i ==> !(is_open(#[trigger] self@.positions[j])
                        && self@.positions[j].market_condition_id@ == market@
                        && self@.positions[j].side@ == side@),
            decreases n - i,
        {
            let p = &self.positions[i];
            if is_open_exec(p) && p.market_condition_id.eq(market) && p.side.eq(side) {
                proof {
                    lemma_find_open_slot_props(self@.positions, market@, side@, 0);
                }
                return i;
            }
            proof {
                lemma_find_open_slot_props(self@.positions, market@, side@, 0);
            }
            i += 1;
        }
        proof {
            lemma_find_open_slot_props(self@.positions, market@, side@, 0);
        }
        n
    }

    /// Open a position, or extend the open position of the same market
    /// and side with the size-weighted mean entry price; an estimate,
    /// when given, replaces the stored one.
    pub fn upsert_position_with_estimate(
        &mut self,
        market_condition_id: &str,
        token_id: &str,
        side: &str,
        entry_price: i64,
        size: i64,
        estimated_probability: Option<i64>,
    ) -> (r: Result<(), LedgerError>)
        requires
            old(self).wf(),
            0 <= entry_price <= SCALE,
            0 < size <= SIZE_LIMIT,
        ensures
            final(self).wf(),
            same_except_positions(old(self)@, final(self)@),
            upsert_post(
                old(self)@.positions,
                final(self)@.positions,
                market_condition_id@,
                token_id@,
                side@,
                entry_price as int,
                size as int,
                estimated_probability,
                r,
            ),
    {
        let m = market_condition_id.to_owned();
        let t = token_id.to_owned();
        let s = side.to_owned();
        let k = self.find_open_slot_exec(&m, &s);
        let ghost v1 = self@;
        proof {
            lemma_find_open_slot_props(v1.positions, m@, s@, 0);
        }
        if k < self.positions.len() {
            let old_entry = self.positions[k].entry_price;
            let old_size = self.positions[k].size;
            if size > SIZE_LIMIT - old_size {
                return Err(LedgerError::CapacityExceeded);
            }
            let total_size = old_size + size;
            proof {
                lemma_agg_entry_in_range(
                    old_entry as int,
                    old_size as int,
                    entry_price as int,
                    size as int,
                );
            }
            let avg = agg_entry_exec(old_entry, old_size, entry_price, size);
            let old_row = &self.positions[k];
            let new_est = match estimated_probability {
                Some(e) => Some(e),
                None => old_row.estimated_probability,
            };
            let new_unrealized = match old_row.current_price {
                Some(c) => {
                    proof {
                        lemma_pnl_in_range(avg as int, c as int, total_size as int);
                    }
                    crate::money::mul_div_trunc(c - avg, total_size, SCALE)
                }
                None => old_row.unrealized_pnl,
            };
            let new_row = PositionRow {
                market_condition_id: old_row.market_condition_id.clone(),
                token_id: t,
                side: old_row.side.clone(),
                entry_price: avg,
                size: total_size,
                status: old_row.status.clone(),
                current_price: old_row.current_price,
                unrealized_pnl: new_unrealized,
                realized_pnl: old_row.realized_pnl,
                estimated_probability: new_est,
                question: clone_opt_string(&old_row.question),
            };
            proof {
                lemma_positions_update_same_slot(v1.positions, k as int, new_row);
            }
            self.positions.set(k, new_row);
            proof {
                lemma_wf_positions(v1, self@);
            }
            Ok(())
        } else {
            if self.positions.len() >= TABLE_CAP {
                return Err(LedgerError::CapacityExceeded);
            }
            let new_row = PositionRow {
                market_condition_id: m,
                token_id: t,
                side: s,
                entry_price,
                size,
                status: String::from_str("open"),
                current_price: None,
                unrealized_pnl: 0,
                realized_pnl: 0,
                estimated_probability,
                question: None,
            };
            proof {
                lemma_positions_push(v1.positions, new_row);
            }
            self.positions.push(new_row);
            proof {
                lemma_wf_positions(v1, self@);
            }
            Ok(())
        }
    }

    /// Open or extend a position without touching the stored estimate.
    pub fn upsert_position(
        &mut self,
        market_condition_id: &str,
        token_id: &str,
        side: &str,
        entry_price: i64,
        size: i64,
    ) -> (r: Result<(), LedgerError>)
        requires
            old(self).wf(),
            0 <= entry_price <= SCALE,
            0 < size <= SIZE_LIMIT,
        ensures
            final(self).wf(),
            same_except_positions(old(self)@, final(self)@),
            upsert_post(
                old(self)@.positions,
                final(self)@.positions,
                market_condition_id@,
                token_id@,
                side@,
                entry_price as int,
                size as int,
                None,
                r,
            ),
    {
        self.upsert_position_with_estimate(
            market_condition_id,
            token_id,
            side,
            entry_price,
            size,
            None,
        )
    }

    /// Write the fresh price and the unrealized P&L it implies to the
    /// open row of (market, side); a missing row is no error.
    pub fn update_position_price(
        &mut self,
        market_condition_id: &str,
        side: &str,
        current_price: i64,
    ) -> (r: Result<(), LedgerError>)
        requires
            old(self).wf(),
            0 <= current_price <= SCALE,
        ensures
            final(self).wf(),
            same_except_positions(old(self)@, final(self)@),
            r is Ok,
            ({
                let ps = old(self)@.positions;
                let ps2 = final(self)@.positions;
                let k = find_open_slot(ps, market_condition_id@, side@, 0);
                if k == ps.len() {
                    ps2 == ps
                } else {
                    &&& ps2.len() == ps.len()
                    &&& forall|i: int| 0 <= i < ps.len() && i != k ==> ps2[i] == ps[i]
                    &&& ps2[k] == (PositionRow {
                        current_price: Some(current_price),
                        unrealized_pnl: ps2[k].unrealized_pnl,
                        ..ps[k]
                    })
                    &&& ps2[k].unrealized_pnl == pnl_of(
                        ps[k].entry_price as int,
                        current_price as int,
                        ps[k].size as int,
                    )
                }
            }),
    {
        let m = market_condition_id.to_owned();
        let s = side.to_owned();
        let k = self.find_open_slot_exec(&m, &s);
        let ghost v1 = self@;
        proof {
            lemma_find_open_slot_props(v1.positions, m@, s@, 0);
        }
        if k == self.positions.len() {
            return Ok(());
        }
        let old_row = &self.positions[k];
        proof {
            lemma_pnl_in_range(old_row.entry_price as int, current_price as int, old_row.size as int);
        }
        let pnl = crate::money::mul_div_trunc(current_price - old_row.entry_price, old_row.size, SCALE);
        let new_row = PositionRow {
            market_condition_id: old_row.market_condition_id.clone(),
            token_id: old_row.token_id.clone(),
            side: old_row.side.clone(),
            entry_price: old_row.entry_price,
            size: old_row.size,
            status: old_row.status.clone(),
            current_price: Some(current_price),
            unrealized_pnl: pnl,
            realized_pnl: old_row.realized_pnl,
            estimated_probability: old_row.estimated_probability,
            question: clone_opt_string(&old_row.question),
        };
        proof {
            lemma_positions_update_same_slot(v1.positions, k as int, new_row);
        }
        self.positions.set(k, new_row);
        proof {
            lemma_wf_positions(v1, self@);
        }
        Ok(())
    }

    /// Close the open row of (market, side) at `exit_price`, record the
    /// realized P&L it implies, and return it.
    pub fn close_position(
        &mut self,
        market_condition_id: &str,
        side: &str,
        exit_price: i64,
    ) -> (r: Result<i64, LedgerError>)
        requires
            old(self).wf(),
            0 <= exit_price <= SCALE,
        ensures
            final(self).wf(),
            same_except_positions(old(self)@, final(self)@),
            ({
                let ps = old(self)@.positions;
                let ps2 = final(self)@.positions;
                let k = find_open_slot(ps, market_condition_id@, side@, 0);
                match r {
                    Ok(pnl) => {
                        &&& k < ps.len()
                        &&& pnl == pnl_of(ps[k].entry_price as int, exit_price as int, ps[k].size as int)
                        &&& ps2.len() == ps.len()
                        &&& forall|i: int| 0 <= i < ps.len() && i != k ==> ps2[i] == ps[i]
                        &&& ps2[k] == (PositionRow {
                            status: ps2[k].status,
                            current_price: Some(exit_price),
                            realized_pnl: pnl as i64,
                            unrealized_pnl: 0,
                            ..ps[k]
                        })
                        &&& ps2[k].status@ == "closed"@
                    },
                    Err(e) => {
                        &&& e == LedgerError::NoOpenPosition
                        &&& k == ps.len()
                        &&& ps2 == ps
                    },
                }
            }),
    {
        let m = market_condition_id.to_owned();
        let s = side.to_owned();
        let k = self.find_open_slot_exec(&m, &s);
        let ghost v1 = self@;
        proof {
            lemma_find_open_slot_props(v1.positions, m@, s@, 0);
        }
        if k == self.positions.len() {
            return Err(LedgerError::NoOpenPosition);
        }
        let old_row = &self.positions[k];
        proof {
            lemma_pnl_in_range(old_row.entry_price as int, exit_price as int, old_row.size as int);
        }
        let pnl = crate::money::mul_div_trunc(exit_price - old_row.entry_price, old_row.size, SCALE);
        let new_row = PositionRow {
            market_condition_id: old_row.market_condition_id.clone(),
            token_id: old_row.token_id.clone(),
            side: old_row.side.clone(),
            entry_price: old_row.entry_price,
            size: old_row.size,
            status: String::from_str("closed"),
            current_price: Some(exit_price),
            unrealized_pnl: 0,
            realized_pnl: pnl,
            estimated_probability: old_row.estimated_probability,
            question: clone_opt_string(&old_row.question),
        };
        proof {
            reveal_strlit("closed");
            reveal_strlit("open");
            assert("closed"@.len() == 6 && "open"@.len() == 4);
            assert(!is_open(new_row));
            lemma_positions_update_closed(v1.positions, k as int, new_row);
        }
        self.positions.set(k, new_row);
        proof {
            lemma_wf_positions(v1, self@);
        }
        Ok(pnl)
    }

    /// Whether any open position exists for the market, on either side.
    pub fn has_open_position(&self, market_condition_id: &str) -> (r: bool)
        requires
            self.wf(),
        ensures
            r == spec_has_open_position(self@.positions, market_condition_id@),
    {
        let m = market_condition_id.to_owned();
        let n = self.positions.len();
        let mut i: usize = 0;
        while i < n
            invariant
                0 <= i <= n,
                n == self@.positions.len(),
                m@ == market_condition_id@,
                forall|j: int|
                    0 <= j < i ==> !(is_open(#[trigger] self@.positions[j])
                        && self@.positions[j].market_condition_id@ == market_condition_id@),
            decreases n - i,
        {
            let p = &self.positions[i];
            if is_open_exec(p) && p.market_condition_id.eq(&m) {
                return true;
            }
            i += 1;
        }
        false
    }

    /// Store a fresh model estimate on every open row of the market.
    pub fn update_position_estimate(
        &mut self,
        market_condition_id: &str,
        estimated_probability: i64,
    ) -> (r: Result<(), LedgerError>)
        requires
            old(self).wf(),
        ensures
            final(self).wf(),
            same_except_positions(old(self)@, final(self)@),
            r is Ok,
            final(self)@.positions.len() == old(self)@.positions.len(),
            forall|i: int|
                0 <= i < old(self)@.positions.len() ==> {
                    let p = old(self)@.positions[i];
                    #[trigger] final(self)@.positions[i] == if is_open(p)
                        && p.market_condition_id@ == market_condition_id@ {
                        PositionRow {
                            estimated_probability: Some(estimated_probability),
                            ..p
                        }
                    } else {
                        p
                    }
                },
    {
        let m = market_condition_id.to_owned();
        let n = self.positions.len();
        let ghost v1 = self@;
        let mut i: usize = 0;
        while i < n
            invariant
                0 <= i <= n,
                self.wf(),
                n == self@.positions.len() == v1.positions.len(),
                m@ == market_condition_id@,
                same_except_positions(v1, self@),
                forall|j: int| i <= j < n ==> #[trigger] self@.positions[j] == v1.positions[j],
                forall|j: int|
                    0 <= j < i ==> {
                        let p = v1.positions[j];
                        #[trigger] self@.positions[j] == if is_open(p)
                            && p.market_condition_id@ == market_condition_id@ {
                            PositionRow {
                                estimated_probability: Some(estimated_probability),
                                ..p
                            }
                        } else {
                            p
                        }
                    },
            decreases n - i,
        {
            let ghost vpre = self@;
            let p = &self.positions[i];
            if is_open_exec(p) && p.market_condition_id.eq(&m) {
                let new_row = PositionRow {
                    market_condition_id: p.market_condition_id.clone(),
                    token_id: p.token_id.clone(),
                    side: p.side.clone(),
                    entry_price: p.entry_price,
                    size: p.size,
                    status: p.status.clone(),
                    current_price: p.current_price,
                    unrealized_pnl: p.unrealized_pnl,
                    realized_pnl: p.realized_pnl,
                    estimated_probability: Some(estimated_probability),
                    question: clone_opt_string(&p.question),
                };
                proof {
                    lemma_positions_update_same_slot(vpre.positions, i as int, new_row);
                }
                self.positions.set(i, new_row);
                proof {
                    lemma_wf_positions(vpre, self@);
                }
            }
            i += 1;
        }
        Ok(())
    }

    /// The total dollars at risk: entry price times size, summed over
    /// the open positions.
    pub fn get_total_exposure(&self) -> (r: i64)
        requires
            self.wf(),
        ensures
            r == sum_exposure(self@.positions),
    {
        let ghost ps = self@.positions;
        let n = self.positions.len();
        let mut acc: i64 = 0;
        let mut i: usize = 0;
        proof {
            assert(ps.subrange(0, 0) =~= Seq::<PositionRow>::empty());
        }
        while i < n
            invariant
                0 <= i <= n,
                self.wf(),
                ps == self@.positions,
                n == ps.len(),
                acc == sum_exposure(ps.subrange(0, i as int)),
                0 <= acc <= i * (SIZE_LIMIT as int),
            decreases n - i,
        {
            let p = &self.positions[i];
            let term = if is_open_exec(p) {
                proof {
                    crate::money::lemma_mul_div_le(
                        p.entry_price as int,
                        SCALE as int,
                        p.size as int,
                    );
                    assert(p.entry_price * p.size == p.size * p.entry_price)
                        by (nonlinear_arith);
                }
                crate::money::mul_div_floor(p.entry_price, p.size, SCALE)
            } else {
                0
            };
            proof {
                assert(ps.subrange(0, i + 1).drop_last() =~= ps.subrange(0, i as int));
                assert(ps.subrange(0, i + 1).last() == ps[i as int]);
            }
            acc = acc + term;
            i += 1;
        }
        proof {
            assert(ps.subrange(0, n as int) =~= ps);
        }
        acc
    }
}

/// Exec mirror of `is_open`.
fn is_open_exec(p: &PositionRow) -> (r: bool)
    ensures
        r == is_open(*p),
{
    let open_word = String::from_str("open");
    p.status.eq(&open_word)
}

/// Clone an optional string, keeping its value.
fn clone_opt_string(o: &Option<String>) -> (r: Option<String>)
    ensures
        r == *o,
{
    match o {
        Some(s) => Some(s.clone()),
        None => None,
    }
}

/// Exec weighted-mean entry price.
fn agg_entry_exec(e1: i64, s1: i64, e2: i64, s2: i64) -> (r: i64)
    requires
        0 <= e1 <= SCALE,
        0 <= e2 <= SCALE,
        0 <= s1 <= SIZE_LIMIT,
        0 < s2 <= SIZE_LIMIT,
    ensures
        r == agg_entry_price(e1 as int, s1 as int, e2 as int, s2 as int),
{
    proof {
        lemma_agg_entry_in_range(e1 as int, s1 as int, e2 as int, s2 as int);
        assert(e1 * s1 <= SCALE * SIZE_LIMIT && e2 * s2 <= SCALE * SIZE_LIMIT)
            by (nonlinear_arith)
            requires
                0 <= e1 <= SCALE,
                0 <= e2 <= SCALE,
                0 <= s1 <= SIZE_LIMIT,
                0 < s2 <= SIZE_LIMIT,
        ;
        assert(e1 * s1 >= 0 && e2 * s2 >= 0) by (nonlinear_arith)
            requires
                0 <= e1,
                0 <= e2,
                0 <= s1,
                0 <= s2,
        ;
    }
    let num: i128 = (e1 as i128) * (s1 as i128) + (e2 as i128) * (s2 as i128);
    let den: i128 = (s1 as i128) + (s2 as i128);
    let q: i128 = num / den;
    proof {
        assert(num == e1 * s1 + e2 * s2);
        assert(0 <= q <= SCALE);
    }
    q as i64
}

/// The weighted mean of two prices in range stays in range.
proof fn lemma_agg_entry_in_range(e1: int, s1: int, e2: int, s2: int)
    requires
        0 <= e1 <= SCALE,
        0 <= e2 <= SCALE,
        0 <= s1,
        0 < s2,
    ensures
        0 <= agg_entry_price(e1, s1, e2, s2) <= SCALE,
{
    assert(0 <= (e1 * s1 + e2 * s2) / (s1 + s2) <= SCALE) by (nonlinear_arith)
        requires
            0 <= e1 <= SCALE,
            0 <= e2 <= SCALE,
            0 <= s1,
            0 < s2,
    ;
}

/// The P&L a price move implies stays well inside the money range.
proof fn lemma_pnl_in_range(entry: int, current: int, size: int)
    requires
        0 <= entry <= SCALE,
        0 <= current <= SCALE,
        0 <= size <= SIZE_LIMIT,
    ensures
        -SIZE_LIMIT <= pnl_of(entry, current, size) <= SIZE_LIMIT,
        tdiv((current - entry) * size, SCALE as int) == pnl_of(entry, current, size),
{
    assert(-(SCALE * SIZE_LIMIT) <= (current - entry) * size <= SCALE * SIZE_LIMIT)
        by (nonlinear_arith)
        requires
            -SCALE <= current - entry <= SCALE,
            0 <= size <= SIZE_LIMIT,
    ;
    let n = (current - entry) * size;
    if n >= 0 {
        assert(tdiv(n, SCALE as int) <= SIZE_LIMIT) by (nonlinear_arith)
            requires
                0 <= n <= SCALE * SIZE_LIMIT,
        ;
    } else {
        assert(-tdiv(n, SCALE as int) <= SIZE_LIMIT) by (nonlinear_arith)
            requires
                -(SCALE * SIZE_LIMIT) <= n < 0,
        ;
    }
}

/// What an upsert does to the positions table.
pub open spec fn upsert_post(
    ps: Seq<PositionRow>,
    ps2: Seq<PositionRow>,
    market: Seq<char>,
    token: Seq<char>,
    side: Seq<char>,
    entry_price: int,
    size: int,
    est: Option<i64>,
    r: Result<(), LedgerError>,
) -> bool {
    let k = find_open_slot(ps, market, side, 0);
    if k < ps.len() {
        match r {
            Ok(()) => {
                &&& ps[k].size + size <= SIZE_LIMIT
                &&& ps2.len() == ps.len()
                &&& (forall|i: int| 0 <= i < ps.len() && i != k ==> ps2[i] == ps[i])
                &&& ps2[k].entry_price == agg_entry_price(
                    ps[k].entry_price as int,
                    ps[k].size as int,
                    entry_price,
                    size,
                )
                &&& ps2[k].size == ps[k].size + size
                &&& ps2[k].token_id@ == token
                &&& ps2[k].market_condition_id@ == ps[k].market_condition_id@
                &&& ps2[k].side@ == ps[k].side@
                &&& ps2[k].status@ == ps[k].status@
                &&& ps2[k].current_price == ps[k].current_price
                &&& ps2[k].estimated_probability == if est is Some {
                    est
                } else {
                    ps[k].estimated_probability
                }
            },
            Err(e) => {
                &&& e == LedgerError::CapacityExceeded
                &&& ps[k].size + size > SIZE_LIMIT
                &&& ps2 == ps
            },
        }
    } else {
        match r {
            Ok(()) => {
                &&& ps.len() < TABLE_CAP
                &&& ps2.len() == ps.len() + 1
                &&& (forall|i: int| 0 <= i < ps.len() ==> ps2[i] == ps[i])
                &&& ps2.last().market_condition_id@ == market
                &&& ps2.last().token_id@ == token
                &&& ps2.last().side@ == side
                &&& ps2.last().entry_price == entry_price
                &&& ps2.last().size == size
                &&& is_open(ps2.last())
                &&& ps2.last().current_price is None
                &&& ps2.last().unrealized_pnl == 0
                &&& ps2.last().estimated_probability == est
            },
            Err(e) => {
                &&& e == LedgerError::CapacityExceeded
                &&& ps.len() >= TABLE_CAP
                &&& ps2 == ps
            },
        }
    }
}


// ─── API costs, cycles and opportunities ───

/// Appending an API row changes a cycle's sum only when the row names
/// that cycle.
proof fn lemma_sum_cycle_cost_push(rows: Seq<ApiCostRow>, r: ApiCostRow, c: int)
    ensures
        sum_cycle_cost(rows.push(r), c) == sum_cycle_cost(rows, c) + if r.cycle_number == c {
            r.cost_usd as int
        } else {
            0
        },
{
    assert(rows.push(r).drop_last() =~= rows);
}

/// The cycle sum of an in-range log stays within `len * API_CALL_LIMIT`.
pub proof fn lemma_sum_cycle_cost_bound(rows: Seq<ApiCostRow>, c: int)
    requires
        forall|i: int| 0 <= i < rows.len() ==> 0 <= (#[trigger] rows[i]).cost_usd <= API_CALL_LIMIT,
    ensures
        0 <= sum_cycle_cost(rows, c) <= rows.len() * API_CALL_LIMIT,
    decreases rows.len(),
{
    if rows.len() > 0 {
        assert(forall|i: int|
            0 <= i < rows.drop_last().len() ==> 0 <= (#[trigger] rows.drop_last()[i]).cost_usd
                <= API_CALL_LIMIT);
        lemma_sum_cycle_cost_bound(rows.drop_last(), c);
        assert((rows.len() - 1) * API_CALL_LIMIT + API_CALL_LIMIT == rows.len()
            * API_CALL_LIMIT) by (nonlinear_arith);
    }
}

proof fn lemma_sum_cost_since_bound(rows: Seq<ApiCostRow>, cutoff: int)
    requires
        forall|i: int| 0 <= i < rows.len() ==> 0 <= (#[trigger] rows[i]).cost_usd <= API_CALL_LIMIT,
    ensures
        0 <= sum_cost_since(rows, cutoff) <= rows.len() * API_CALL_LIMIT,
    decreases rows.len(),
{
    if rows.len() > 0 {
        assert(forall|i: int|
            0 <= i < rows.drop_last().len() ==> 0 <= (#[trigger] rows.drop_last()[i]).cost_usd
                <= API_CALL_LIMIT);
        lemma_sum_cost_since_bound(rows.drop_last(), cutoff);
        assert((rows.len() - 1) * API_CALL_LIMIT + API_CALL_LIMIT == rows.len()
            * API_CALL_LIMIT) by (nonlinear_arith);
    }
}

pub open spec fn same_except_api(v1: LedgerView, v2: LedgerView) -> bool {
    v2 == (LedgerView { api_cost_log: v2.api_cost_log, ..v1 })
}

pub open spec fn same_except_cycles(v1: LedgerView, v2: LedgerView) -> bool {
    v2 == (LedgerView { cycle_log: v2.cycle_log, ..v1 })
}

pub open spec fn same_except_opportunities(v1: LedgerView, v2: LedgerView) -> bool {
    v2 == (LedgerView { opportunities: v2.opportunities, ..v1 })
}

/// No pending opportunity row names cycle `c`.
pub open spec fn no_pending_for(opps: Seq<OpportunityRow>, c: int) -> bool {
    forall|i: int|
        0 <= i < opps.len() && (#[trigger] opps[i]).cycle_number == c ==> opps[i].status@
            != "pending"@
}

impl Database {
    /// Record the cost of one model call against an open cycle.
    pub fn log_api_cost(
        &mut self,
        cycle_number: i64,
        market_condition_id: Option<&str>,
        model: &str,
        input_tokens: u64,
        output_tokens: u64,
        cost_usd: i64,
        call_type: &str,
        at: i64,
    ) -> (r: Result<(), LedgerError>)
        requires
            old(self).wf(),
        ensures
            final(self).wf(),
            same_except_api(old(self)@, final(self)@),
            match r {
                Ok(()) => {
                    &&& cycle_number > old(self)@.cycle_log.len()
                    &&& 0 <= cost_usd <= API_CALL_LIMIT
                    &&& old(self)@.api_cost_log.len() < TABLE_CAP
                    &&& final(self)@.api_cost_log.len() == old(self)@.api_cost_log.len() + 1
                    &&& (forall|i: int|
                        0 <= i < old(self)@.api_cost_log.len()
                            ==> final(self)@.api_cost_log[i] == old(self)@.api_cost_log[i])
                    &&& final(self)@.api_cost_log.last().cycle_number == cycle_number
                    &&& final(self)@.api_cost_log.last().cost_usd == cost_usd
                    &&& final(self)@.api_cost_log.last().input_tokens == input_tokens
                    &&& final(self)@.api_cost_log.last().output_tokens == output_tokens
                    &&& final(self)@.api_cost_log.last().model@ == model@
                    &&& final(self)@.api_cost_log.last().call_type@ == call_type@
                    &&& final(self)@.api_cost_log.last().at == at
                },
                Err(LedgerError::CycleAlreadyClosed) => {
                    &&& cycle_number <= old(self)@.cycle_log.len()
                    &&& final(self)@ == old(self)@
                },
                Err(LedgerError::AmountOutOfRange) => {
                    &&& cycle_number > old(self)@.cycle_log.len()
                    &&& !(0 <= cost_usd <= API_CALL_LIMIT)
                    &&& final(self)@ == old(self)@
                },
                Err(LedgerError::CapacityExceeded) => {
                    &&& old(self)@.api_cost_log.len() >= TABLE_CAP
                    &&& final(self)@ == old(self)@
                },
                Err(_) => false,
            },
    {
        if cycle_number <= self.cycle_log.len() as i64 {
            return Err(LedgerError::CycleAlreadyClosed);
        }
        if cost_usd < 0 || cost_usd > API_CALL_LIMIT {
            return Err(LedgerError::AmountOutOfRange);
        }
        if self.api_cost_log.len() >= TABLE_CAP {
            return Err(LedgerError::CapacityExceeded);
        }
        let ghost v1 = self@;
        let mid = match market_condition_id {
            Some(s) => Some(s.to_owned()),
            None => None,
        };
        let row = ApiCostRow {
            cycle_number,
            market_condition_id: mid,
            model: model.to_owned(),
            input_tokens,
            output_tokens,
            cost_usd,
            call_type: call_type.to_owned(),
            at,
        };
        let ghost grow = row;
        self.api_cost_log.push(row);
        proof {
            let rows2 = self@.api_cost_log;
            assert forall|i: int| 0 <= i < rows2.len() implies 0 <= (
            #[trigger] rows2[i]).cost_usd <= API_CALL_LIMIT by {
                if i < rows2.len() - 1 {
                    assert(rows2[i] == v1.api_cost_log[i]);
                }
            }
            assert forall|i: int| 0 <= i < self@.cycle_log.len() implies (
            #[trigger] self@.cycle_log[i]).api_cost_usd == sum_cycle_cost(rows2, i + 1) by {
                lemma_sum_cycle_cost_push(v1.api_cost_log, grow, i + 1);
            }
        }
        Ok(())
    }

    /// The summed cost of a cycle's model calls.
    pub fn get_cycle_api_cost(&self, cycle_number: i64) -> (r: i64)
        requires
            self.wf(),
        ensures
            r == sum_cycle_cost(self@.api_cost_log, cycle_number as int),
            0 <= r <= self@.api_cost_log.len() * API_CALL_LIMIT,
    {
        let ghost rows = self@.api_cost_log;
        let n = self.api_cost_log.len();
        let mut acc: i64 = 0;
        let mut i: usize = 0;
        proof {
            assert(rows.subrange(0, 0) =~= Seq::<ApiCostRow>::empty());
        }
        while i < n
            invariant
                0 <= i <= n,
                self.wf(),
                rows == self@.api_cost_log,
                n == rows.len(),
                acc == sum_cycle_cost(rows.subrange(0, i as int), cycle_number as int),
                0 <= acc <= i * (API_CALL_LIMIT as int),
            decreases n - i,
        {
            let row = &self.api_cost_log[i];
            proof {
                assert(rows.subrange(0, i + 1).drop_last() =~= rows.subrange(0, i as int));
                assert(rows.subrange(0, i + 1).last() == rows[i as int]);
            }
            if row.cycle_number == cycle_number {
                acc = acc + row.cost_usd;
            }
            i += 1;
        }
        proof {
            assert(rows.subrange(0, n as int) =~= rows);
        }
        acc
    }

    /// The summed cost of the model calls made at or after `cutoff`.
    pub fn get_api_cost_since(&self, cutoff: i64) -> (r: i64)
        requires
            self.wf(),
        ensures
            r == sum_cost_since(self@.api_cost_log, cutoff as int),
    {
        let ghost rows = self@.api_cost_log;
        let n = self.api_cost_log.len();
        let mut acc: i64 = 0;
        let mut i: usize = 0;
        proof {
            assert(rows.subrange(0, 0) =~= Seq::<ApiCostRow>::empty());
        }
        while i < n
            invariant
                0 <= i <= n,
                self.wf(),
                rows == self@.api_cost_log,
                n == rows.len(),
                acc == sum_cost_since(rows.subrange(0, i as int), cutoff as int),
                0 <= acc <= i * (API_CALL_LIMIT as int),
            decreases n - i,
        {
            let row = &self.api_cost_log[i];
            proof {
                assert(rows.subrange(0, i + 1).drop_last() =~= rows.subrange(0, i as int));
                assert(rows.subrange(0, i + 1).last() == rows[i as int]);
            }
            if row.at >= cutoff {
                acc = acc + row.cost_usd;
            }
            i += 1;
        }
        proof {
            assert(rows.subrange(0, n as int) =~= rows);
        }
        acc
    }

    /// One past the last closed cycle; one on a fresh ledger.
    pub fn get_next_cycle_number(&self) -> (r: i64)
        requires
            self.wf(),
        ensures
            r == self@.cycle_log.len() + 1,
    {
        (self.cycle_log.len() as i64) + 1
    }

    /// Close the books on a cycle: append its summary row. The cycle
    /// must be the next in order, carry exactly its summed API cost, and
    /// leave no opportunity pending.
    pub fn log_cycle_summary(
        &mut self,
        cycle_number: i64,
        markets_scanned: i64,
        markets_filtered: i64,
        trades_placed: i64,
        api_cost_usd: i64,
        bankroll_before: i64,
        bankroll_after: i64,
    ) -> (r: Result<(), LedgerError>)
        requires
            old(self).wf(),
            api_cost_usd == sum_cycle_cost(old(self)@.api_cost_log, cycle_number as int),
        ensures
            final(self).wf(),
            same_except_cycles(old(self)@, final(self)@),
            match r {
                Ok(()) => {
                    &&& cycle_number == old(self)@.cycle_log.len() + 1
                    &&& no_pending_for(old(self)@.opportunities, cycle_number as int)
                    &&& old(self)@.cycle_log.len() < TABLE_CAP
                    &&& final(self)@.cycle_log == old(self)@.cycle_log.push(
                        CycleRow {
                            cycle_number,
                            markets_scanned,
                            markets_filtered,
                            trades_placed,
                            api_cost_usd,
                            bankroll_before,
                            bankroll_after,
                        },
                    )
                },
                Err(LedgerError::CycleOutOfOrder) => {
                    &&& cycle_number != old(self)@.cycle_log.len() + 1
                    &&& final(self)@ == old(self)@
                },
                Err(LedgerError::OpportunityStillPending) => {
                    &&& cycle_number == old(self)@.cycle_log.len() + 1
                    &&& !no_pending_for(old(self)@.opportunities, cycle_number as int)
                    &&& final(self)@ == old(self)@
                },
                Err(LedgerError::CapacityExceeded) => {
                    &&& old(self)@.cycle_log.len() >= TABLE_CAP
                    &&& final(self)@ == old(self)@
                },
                Err(_) => false,
            },
    {
        if self.cycle_log.len() >= TABLE_CAP {
            return Err(LedgerError::CapacityExceeded);
        }
        if cycle_number != (self.cycle_log.len() as i64) + 1 {
            return Err(LedgerError::CycleOutOfOrder);
        }
        // Scan for a pending opportunity of this cycle.
        let pending_word = String::from_str("pending");
        let n = self.opportunities.len();
        let mut i: usize = 0;
        while i < n
            invariant
                0 <= i <= n,
                self@ == old(self)@,
                self.wf(),
                n == self@.opportunities.len(),
                pending_word@ == "pending"@,
                cycle_number == self@.cycle_log.len() + 1,
                forall|j: int|
                    0 <= j < i ==> ((#[trigger] self@.opportunities[j]).cycle_number
                        != cycle_number || self@.opportunities[j].status@ != "pending"@),
            decreases n - i,
        {
            let o = &self.opportunities[i];
            if o.cycle_number == cycle_number && o.status.eq(&pending_word) {
                return Err(LedgerError::OpportunityStillPending);
            }
            i += 1;
        }
        let ghost v1 = self@;
        self.cycle_log.push(
            CycleRow {
                cycle_number,
                markets_scanned,
                markets_filtered,
                trades_placed,
                api_cost_usd,
                bankroll_before,
                bankroll_after,
            },
        );
        proof {
            let cl2 = self@.cycle_log;
            assert forall|i2: int| 0 <= i2 < cl2.len() implies (
            #[trigger] cl2[i2]).cycle_number == i2 + 1 by {
                if i2 < cl2.len() - 1 {
                    assert(cl2[i2] == v1.cycle_log[i2]);
                }
            }
            assert forall|i2: int| 0 <= i2 < cl2.len() implies (#[trigger] cl2[i2]).api_cost_usd
                == sum_cycle_cost(self@.api_cost_log, i2 + 1) by {
                if i2 < cl2.len() - 1 {
                    assert(cl2[i2] == v1.cycle_log[i2]);
                }
            }
            assert forall|i2: int|
                0 <= i2 < self@.opportunities.len() && (
            #[trigger] self@.opportunities[i2]).cycle_number <= cl2.len() implies
                self@.opportunities[i2].status@ != "pending"@ by {
                if self@.opportunities[i2].cycle_number <= v1.cycle_log.len() {
                } else {
                    assert(self@.opportunities[i2].cycle_number == cycle_number);
                }
            }
        }
        Ok(())
    }

    /// Record a detected opportunity. A pending row can only name a
    /// cycle that is still open.
    pub fn insert_opportunity(
        &mut self,
        cycle_number: i64,
        condition_id: &str,
        question: &str,
        side: &str,
        market_price: i64,
        estimated_probability: i64,
        edge: i64,
        confidence: i64,
        status: &str,
        reject_reason: Option<&str>,
    ) -> (r: Result<(), LedgerError>)
        requires
            old(self).wf(),
        ensures
            final(self).wf(),
            same_except_opportunities(old(self)@, final(self)@),
            match r {
                Ok(()) => {
                    &&& (status@ == "pending"@ ==> cycle_number > old(self)@.cycle_log.len())
                    &&& old(self)@.opportunities.len() < TABLE_CAP
                    &&& final(self)@.opportunities.len() == old(self)@.opportunities.len() + 1
                    &&& (forall|i: int|
                        0 <= i < old(self)@.opportunities.len()
                            ==> final(self)@.opportunities[i] == old(self)@.opportunities[i])
                    &&& final(self)@.opportunities.last().cycle_number == cycle_number
                    &&& final(self)@.opportunities.last().condition_id@ == condition_id@
                    &&& final(self)@.opportunities.last().question@ == question@
                    &&& final(self)@.opportunities.last().side@ == side@
                    &&& final(self)@.opportunities.last().market_price == market_price
                    &&& final(self)@.opportunities.last().estimated_probability
                        == estimated_probability
                    &&& final(self)@.opportunities.last().edge == edge
                    &&& final(self)@.opportunities.last().confidence == confidence
                    &&& final(self)@.opportunities.last().status@ == status@
                },
                Err(LedgerError::CycleAlreadyClosed) => {
                    &&& status@ == "pending"@
                    &&& cycle_number <= old(self)@.cycle_log.len()
                    &&& final(self)@ == old(self)@
                },
                Err(LedgerError::CapacityExceeded) => {
                    &&& old(self)@.opportunities.len() >= TABLE_CAP
                    &&& final(self)@ == old(self)@
                },
                Err(_) => false,
            },
    {
        if self.opportunities.len() >= TABLE_CAP {
            return Err(LedgerError::CapacityExceeded);
        }
        let st = status.to_owned();
        let pending_word = String::from_str("pending");
        if st.eq(&pending_word) && cycle_number <= self.cycle_log.len() as i64 {
            return Err(LedgerError::CycleAlreadyClosed);
        }
        let ghost v1 = self@;
        let rr = match reject_reason {
            Some(s) => Some(s.to_owned()),
            None => None,
        };
        self.opportunities.push(
            OpportunityRow {
                cycle_number,
                condition_id: condition_id.to_owned(),
                question: question.to_owned(),
                side: side.to_owned(),
                market_price,
                estimated_probability,
                edge,
                confidence,
                status: st,
                reject_reason: rr,
            },
        );
        proof {
            let o2 = self@.opportunities;
            assert forall|i: int|
                0 <= i < o2.len() && (#[trigger] o2[i]).cycle_number <= self@.cycle_log.len()
                    implies o2[i].status@ != "pending"@ by {
                if i < o2.len() - 1 {
                    assert(o2[i] == v1.opportunities[i]);
                }
            }
        }
        Ok(())
    }

    /// Move every still-pending row of (cycle, market) to a terminal
    /// status, with an optional reject reason.
    pub fn update_opportunity_status(
        &mut self,
        cycle_number: i64,
        condition_id: &str,
        new_status: &str,
        reject_reason: Option<&str>,
    ) -> (r: Result<(), LedgerError>)
        requires
            old(self).wf(),
            new_status@ != "pending"@,
        ensures
            final(self).wf(),
            same_except_opportunities(old(self)@, final(self)@),
            r is Ok,
            final(self)@.opportunities.len() == old(self)@.opportunities.len(),
            forall|i: int|
                0 <= i < old(self)@.opportunities.len() ==> {
                    let o = old(self)@.opportunities[i];
                    if o.cycle_number == cycle_number && o.condition_id@ == condition_id@
                        && o.status@ == "pending"@ {
                        &&& (#[trigger] final(self)@.opportunities[i]).status@ == new_status@
                        &&& final(self)@.opportunities[i].cycle_number == o.cycle_number
                        &&& final(self)@.opportunities[i].condition_id@ == o.condition_id@
                        &&& final(self)@.opportunities[i].question@ == o.question@
                        &&& final(self)@.opportunities[i].side@ == o.side@
                        &&& final(self)@.opportunities[i].market_price == o.market_price
                        &&& final(self)@.opportunities[i].estimated_probability
                            == o.estimated_probability
                        &&& final(self)@.opportunities[i].edge == o.edge
                        &&& final(self)@.opportunities[i].confidence == o.confidence
                    } else {
                        final(self)@.opportunities[i] == o
                    }
                },
    {
        let m = condition_id.to_owned();
        let st = new_status.to_owned();
        let pending_word = String::from_str("pending");
        let n = self.opportunities.len();
        let ghost v1 = self@;
        let mut i: usize = 0;
        while i < n
            invariant
                0 <= i <= n,
                self.wf(),
                n == self@.opportunities.len() == v1.opportunities.len(),
                m@ == condition_id@,
                st@ == new_status@,
                new_status@ != "pending"@,
                pending_word@ == "pending"@,
                same_except_opportunities(v1, self@),
                self@.cycle_log == v1.cycle_log,
                forall|j: int| i <= j < n ==> #[trigger] self@.opportunities[j] == v1.opportunities[j],
                forall|j: int|
                    0 <= j < i ==> {
                        let o = v1.opportunities[j];
                        if o.cycle_number == cycle_number && o.condition_id@ == condition_id@
                            && o.status@ == "pending"@ {
                            &&& (#[trigger] self@.opportunities[j]).status@ == new_status@
                            &&& self@.opportunities[j].cycle_number == o.cycle_number
                            &&& self@.opportunities[j].condition_id@ == o.condition_id@
                            &&& self@.opportunities[j].question@ == o.question@
                            &&& self@.opportunities[j].side@ == o.side@
                            &&& self@.opportunities[j].market_price == o.market_price
                            &&& self@.opportunities[j].estimated_probability
                                == o.estimated_probability
                            &&& self@.opportunities[j].edge == o.edge
                            &&& self@.opportunities[j].confidence == o.confidence
                        } else {
                            self@.opportunities[j] == o
                        }
                    },
            decreases n - i,
        {
            let ghost vpre = self@;
            let o = &self.opportunities[i];
            if o.cycle_number == cycle_number && o.condition_id.eq(&m) && o.status.eq(
                &pending_word,
            ) {
                let new_row = OpportunityRow {
                    cycle_number: o.cycle_number,
                    condition_id: o.condition_id.clone(),
                    question: o.question.clone(),
                    side: o.side.clone(),
                    market_price: o.market_price,
                    estimated_probability: o.estimated_probability,
                    edge: o.edge,
                    confidence: o.confidence,
                    status: st.clone(),
                    reject_reason: match reject_reason {
                        Some(s) => Some(s.to_owned()),
                        None => None,
                    },
                };
                self.opportunities.set(i, new_row);
                proof {
                    let o2 = self@.opportunities;
                    assert forall|k: int|
                        0 <= k < o2.len() && (#[trigger] o2[k]).cycle_number
                            <= self@.cycle_log.len() implies o2[k].status@ != "pending"@ by {
                        if k != i {
                            assert(o2[k] == vpre.opportunities[k]);
                        }
                    }
                }
            }
            i += 1;
        }
        Ok(())
    }

    /// The magnitudes of all trading-fee entries, summed.
    pub fn get_total_trading_fees(&self) -> (r: i64)
        requires
            self.wf(),
        ensures
            r == sum_fees(self@.bankroll_log),
    {
        let ghost bl = self@.bankroll_log;
        let n = self.bankroll_log.len();
        let mut acc: i64 = 0;
        let mut i: usize = 0;
        proof {
            assert(bl.subrange(0, 0) =~= Seq::<BankrollEntry>::empty());
        }
        while i < n
            invariant
                0 <= i <= n,
                self.wf(),
                bl == self@.bankroll_log,
                n == bl.len(),
                acc == sum_fees(bl.subrange(0, i as int)),
                0 <= acc <= i * (AMOUNT_LIMIT as int),
            decreases n - i,
        {
            let e = &self.bankroll_log[i];
            proof {
                assert(bl.subrange(0, i + 1).drop_last() =~= bl.subrange(0, i as int));
                assert(bl.subrange(0, i + 1).last() == bl[i as int]);
            }
            let is_fee = match e.entry_type {
                EntryKind::TradingFee => true,
                _ => false,
            };
            if is_fee {
                let a = if e.amount >= 0 {
                    e.amount
                } else {
                    -e.amount
                };
                acc = acc + a;
            }
            i += 1;
        }
        proof {
            assert(bl.subrange(0, n as int) =~= bl);
        }
        acc
    }

    /// The magnitudes of today's weather-tagged trade losses, summed.
    pub fn get_weather_losses_today(&self, today: i64) -> (r: i64)
        requires
            self.wf(),
        ensures
            r == sum_weather_losses(self@.bankroll_log, today as int),
    {
        let ghost bl = self@.bankroll_log;
        let n = self.bankroll_log.len();
        let mut acc: i64 = 0;
        let mut i: usize = 0;
        proof {
            assert(bl.subrange(0, 0) =~= Seq::<BankrollEntry>::empty());
        }
        while i < n
            invariant
                0 <= i <= n,
                self.wf(),
                bl == self@.bankroll_log,
                n == bl.len(),
                acc == sum_weather_losses(bl.subrange(0, i as int), today as int),
                0 <= acc <= i * (AMOUNT_LIMIT as int),
            decreases n - i,
        {
            let e = &self.bankroll_log[i];
            proof {
                assert(bl.subrange(0, i + 1).drop_last() =~= bl.subrange(0, i as int));
                assert(bl.subrange(0, i + 1).last() == bl[i as int]);
            }
            let is_trade = match e.entry_type {
                EntryKind::Trade => true,
                _ => false,
            };
            if is_trade && e.amount < 0 && e.weather && e.day == today {
                acc = acc + (-e.amount);
            }
            i += 1;
        }
        proof {
            assert(bl.subrange(0, n as int) =~= bl);
        }
        acc
    }
}


// ─── Markets, trades, alerts and weather rows ───

/// The index of the first market with `condition_id`, or the table
/// length.
pub open spec fn find_market(ms: Seq<MarketRow>, id: Seq<char>, from: int) -> int
    decreases ms.len() - from,
{
    if from < 0 || from >= ms.len() {
        ms.len() as int
    } else if ms[from].condition_id@ == id {
        from
    } else {
        find_market(ms, id, from + 1)
    }
}

proof fn lemma_find_market_props(ms: Seq<MarketRow>, id: Seq<char>, from: int)
    requires
        0 <= from <= ms.len(),
    ensures
        from <= find_market(ms, id, from) <= ms.len(),
        find_market(ms, id, from) < ms.len() ==> ms[find_market(ms, id, from)].condition_id@
            == id,
        forall|j: int|
            from <= j < find_market(ms, id, from) ==> (#[trigger] ms[j]).condition_id@ != id,
    decreases ms.len() - from,
{
    if from < ms.len() && ms[from].condition_id@ != id {
        lemma_find_market_props(ms, id, from + 1);
    }
}

pub open spec fn same_except_markets(v1: LedgerView, v2: LedgerView) -> bool {
    v2 == (LedgerView { markets: v2.markets, ..v1 })
}

pub open spec fn same_except_trades(v1: LedgerView, v2: LedgerView) -> bool {
    v2 == (LedgerView { trades: v2.trades, ..v1 })
}

pub open spec fn same_except_alerts(v1: LedgerView, v2: LedgerView) -> bool {
    v2 == (LedgerView { alerts: v2.alerts, ..v1 })
}

pub open spec fn same_except_snapshots(v1: LedgerView, v2: LedgerView) -> bool {
    v2 == (LedgerView { weather_snapshots: v2.weather_snapshots, ..v1 })
}

pub open spec fn same_except_actuals(v1: LedgerView, v2: LedgerView) -> bool {
    v2 == (LedgerView { weather_actuals: v2.weather_actuals, ..v1 })
}

/// Whether a trade with this id already exists.
pub open spec fn spec_has_trade(ts: Seq<TradeRow>, id: Seq<char>) -> bool {
    exists|i: int| 0 <= i < ts.len() && (#[trigger] ts[i]).trade_id@ == id
}

impl Database {
    fn find_market_exec(&self, id: &String) -> (r: usize)
        requires
            self.wf(),
        ensures
            r == find_market(self@.markets, id@, 0),
    {
        proof {
            lemma_find_market_props(self@.markets, id@, 0);
        }
        let n = self.markets.len();
        let mut i: usize = 0;
        while i < n
            invariant
                0 <= i <= n,
                n == self@.markets.len(),
                i <= find_market(self@.markets, id@, 0),
                forall|j: int| 0 <= j < i ==> (#[trigger] self@.markets[j]).condition_id@ != id@,
            decreases n - i,
        {
            if self.markets[i].condition_id.eq(id) {
                proof {
                    lemma_find_market_props(self@.markets, id@, 0);
                }
                return i;
            }
            proof {
                lemma_find_market_props(self@.markets, id@, 0);
            }
            i += 1;
        }
        proof {
            lemma_find_market_props(self@.markets, id@, 0);
        }
        n
    }

    /// Insert a market, or update the mutable subset (question, volume,
    /// liquidity, active) of the existing row with its condition id.
    pub fn upsert_market(&mut self, market: &MarketRow) -> (r: Result<(), LedgerError>)
        requires
            old(self).wf(),
        ensures
            final(self).wf(),
            same_except_markets(old(self)@, final(self)@),
            ({
                let ms = old(self)@.markets;
                let ms2 = final(self)@.markets;
                let k = find_market(ms, market.condition_id@, 0);
                match r {
                    Ok(()) => {
                        if k < ms.len() {
                            &&& ms2.len() == ms.len()
                            &&& (forall|i: int| 0 <= i < ms.len() && i != k ==> ms2[i] == ms[i])
                            &&& ms2[k].condition_id@ == ms[k].condition_id@
                            &&& ms2[k].question@ == market.question@
                            &&& ms2[k].volume == market.volume
                            &&& ms2[k].liquidity == market.liquidity
                            &&& ms2[k].active == market.active
                            &&& ms2[k].yes_token_id == ms[k].yes_token_id
                            &&& ms2[k].no_token_id == ms[k].no_token_id
                        } else {
                            &&& ms.len() < TABLE_CAP
                            &&& ms2.len() == ms.len() + 1
                            &&& (forall|i: int| 0 <= i < ms.len() ==> ms2[i] == ms[i])
                            &&& ms2.last().condition_id@ == market.condition_id@
                            &&& ms2.last().question@ == market.question@
                            &&& ms2.last().volume == market.volume
                            &&& ms2.last().liquidity == market.liquidity
                            &&& ms2.last().active == market.active
                        }
                    },
                    Err(e) => {
                        &&& e == LedgerError::CapacityExceeded
                        &&& k == ms.len()
                        &&& ms.len() >= TABLE_CAP
                        &&& ms2 == ms
                    },
                }
            }),
    {
        let k = self.find_market_exec(&market.condition_id);
        let ghost v1 = self@;
        proof {
            lemma_find_market_props(v1.markets, market.condition_id@, 0);
        }
        if k < self.markets.len() {
            let old_row = &self.markets[k];
            let new_row = MarketRow {
                condition_id: old_row.condition_id.clone(),
                question: market.question.clone(),
                slug: clone_opt_string(&market.slug),
                yes_token_id: clone_opt_string(&old_row.yes_token_id),
                no_token_id: clone_opt_string(&old_row.no_token_id),
                volume: market.volume,
                liquidity: market.liquidity,
                end_date: clone_opt_string(&old_row.end_date),
                active: market.active,
            };
            self.markets.set(k, new_row);
            proof {
                let ms2 = self@.markets;
                assert forall|i: int, j: int| 0 <= i < j < ms2.len() implies (
                #[trigger] ms2[i]).condition_id@ != (#[trigger] ms2[j]).condition_id@ by {
                    if i != k {
                        assert(ms2[i] == v1.markets[i]);
                    }
                    if j != k {
                        assert(ms2[j] == v1.markets[j]);
                    }
                }
                assert forall|i: int| 0 <= i < self@.trades.len() implies exists|m: int|
                    0 <= m < ms2.len() && (#[trigger] self@.trades[i]).market_condition_id@
                        == ms2[m].condition_id@ by {
                    let m0 = choose|m: int|
                        0 <= m < v1.markets.len() && (self@.trades[i]).market_condition_id@
                            == v1.markets[m].condition_id@;
                    assert(ms2[m0].condition_id@ == v1.markets[m0].condition_id@);
                }
            }
            Ok(())
        } else {
            if self.markets.len() >= TABLE_CAP {
                return Err(LedgerError::CapacityExceeded);
            }
            let new_row = MarketRow {
                condition_id: market.condition_id.clone(),
                question: market.question.clone(),
                slug: clone_opt_string(&market.slug),
                yes_token_id: clone_opt_string(&market.yes_token_id),
                no_token_id: clone_opt_string(&market.no_token_id),
                volume: market.volume,
                liquidity: market.liquidity,
                end_date: clone_opt_string(&market.end_date),
                active: market.active,
            };
            self.markets.push(new_row);
            proof {
                let ms2 = self@.markets;
                assert forall|i: int, j: int| 0 <= i < j < ms2.len() implies (
                #[trigger] ms2[i]).condition_id@ != (#[trigger] ms2[j]).condition_id@ by {
                    if j < ms2.len() - 1 {
                        assert(ms2[i] == v1.markets[i] && ms2[j] == v1.markets[j]);
                    } else {
                        assert(ms2[i] == v1.markets[i]);
                    }
                }
                assert forall|i: int| 0 <= i < self@.trades.len() implies exists|m: int|
                    0 <= m < ms2.len() && (#[trigger] self@.trades[i]).market_condition_id@
                        == ms2[m].condition_id@ by {
                    let m0 = choose|m: int|
                        0 <= m < v1.markets.len() && (self@.trades[i]).market_condition_id@
                            == v1.markets[m].condition_id@;
                    assert(ms2[m0].condition_id@ == v1.markets[m0].condition_id@);
                }
            }
            Ok(())
        }
    }

    /// Append one trade. The market must be known and the id fresh.
    pub fn insert_trade(
        &mut self,
        trade_id: &str,
        market_condition_id: &str,
        token_id: &str,
        side: &str,
        price: i64,
        size: i64,
        status: &str,
        paper: bool,
        entry_fee: i64,
    ) -> (r: Result<(), LedgerError>)
        requires
            old(self).wf(),
        ensures
            final(self).wf(),
            same_except_trades(old(self)@, final(self)@),
            ({
                let ts = old(self)@.trades;
                let ts2 = final(self)@.trades;
                let known = find_market(old(self)@.markets, market_condition_id@, 0) < old(
                    self,
                )@.markets.len();
                match r {
                    Ok(()) => {
                        &&& known
                        &&& !spec_has_trade(ts, trade_id@)
                        &&& ts.len() < TABLE_CAP
                        &&& ts2.len() == ts.len() + 1
                        &&& (forall|i: int| 0 <= i < ts.len() ==> ts2[i] == ts[i])
                        &&& ts2.last().trade_id@ == trade_id@
                        &&& ts2.last().market_condition_id@ == market_condition_id@
                        &&& ts2.last().token_id@ == token_id@
                        &&& ts2.last().side@ == side@
                        &&& ts2.last().price == price
                        &&& ts2.last().size == size
                        &&& ts2.last().status@ == status@
                        &&& ts2.last().paper == paper
                        &&& ts2.last().entry_fee == entry_fee
                    },
                    Err(LedgerError::ForeignKeyViolation) => {
                        &&& !known
                        &&& ts2 == ts
                    },
                    Err(LedgerError::DuplicateTradeId) => {
                        &&& known
                        &&& spec_has_trade(ts, trade_id@)
                        &&& ts2 == ts
                    },
                    Err(LedgerError::CapacityExceeded) => {
                        &&& ts.len() >= TABLE_CAP
                        &&& ts2 == ts
                    },
                    Err(_) => false,
                }
            }),
    {
        if self.trades.len() >= TABLE_CAP {
            return Err(LedgerError::CapacityExceeded);
        }
        let m = market_condition_id.to_owned();
        let k = self.find_market_exec(&m);
        let ghost v1 = self@;
        proof {
            lemma_find_market_props(v1.markets, m@, 0);
        }
        if k == self.markets.len() {
            return Err(LedgerError::ForeignKeyViolation);
        }
        // Reject a duplicate trade id.
        let tid = trade_id.to_owned();
        let n = self.trades.len();
        let mut i: usize = 0;
        while i < n
            invariant
                0 <= i <= n,
                self@ == old(self)@,
                self.wf(),
                n == self@.trades.len(),
                tid@ == trade_id@,
                find_market(self@.markets, market_condition_id@, 0) < self@.markets.len(),
                forall|j: int| 0 <= j < i ==> (#[trigger] self@.trades[j]).trade_id@ != trade_id@,
            decreases n - i,
        {
            if self.trades[i].trade_id.eq(&tid) {
                proof {
                    assert((#[trigger] self@.trades[i as int]).trade_id@ == trade_id@);
                    assert(spec_has_trade(self@.trades, trade_id@));
                }
                return Err(LedgerError::DuplicateTradeId);
            }
            i += 1;
        }
        self.trades.push(
            TradeRow {
                trade_id: tid,
                market_condition_id: m,
                token_id: token_id.to_owned(),
                side: side.to_owned(),
                price,
                size,
                status: status.to_owned(),
                paper,
                entry_fee,
                question: None,
                realized_pnl: None,
                unrealized_pnl: None,
                position_status: None,
            },
        );
        proof {
            let ts2 = self@.trades;
            assert forall|a: int, b: int| 0 <= a < b < ts2.len() implies (
            #[trigger] ts2[a]).trade_id@ != (#[trigger] ts2[b]).trade_id@ by {
                if b < ts2.len() - 1 {
                    assert(ts2[a] == v1.trades[a] && ts2[b] == v1.trades[b]);
                } else {
                    assert(ts2[a] == v1.trades[a]);
                }
            }
            assert forall|a: int| 0 <= a < ts2.len() implies exists|mm: int|
                0 <= mm < self@.markets.len() && (#[trigger] ts2[a]).market_condition_id@
                    == self@.markets[mm].condition_id@ by {
                if a < ts2.len() - 1 {
                    assert(ts2[a] == v1.trades[a]);
                    let m0 = choose|mm: int|
                        0 <= mm < v1.markets.len() && (v1.trades[a]).market_condition_id@
                            == v1.markets[mm].condition_id@;
                    assert(self@.markets[m0].condition_id@ == ts2[a].market_condition_id@);
                } else {
                    assert(self@.markets[k as int].condition_id@ == ts2[a].market_condition_id@);
                }
            }
        }
        Ok(())
    }

    /// How many trades were ever placed.
    pub fn get_total_trades_count(&self) -> (r: i64)
        requires
            self.wf(),
        ensures
            r == self@.trades.len(),
    {
        self.trades.len() as i64
    }

    /// Append a position-management alert.
    pub fn log_position_alert(
        &mut self,
        market_condition_id: &str,
        alert_type: &str,
        details: &str,
        action_taken: &str,
        cycle_number: i64,
    ) -> (r: Result<(), LedgerError>)
        requires
            old(self).wf(),
        ensures
            final(self).wf(),
            same_except_alerts(old(self)@, final(self)@),
            match r {
                Ok(()) => {
                    &&& old(self)@.alerts.len() < TABLE_CAP
                    &&& final(self)@.alerts.len() == old(self)@.alerts.len() + 1
                    &&& (forall|i: int|
                        0 <= i < old(self)@.alerts.len() ==> final(self)@.alerts[i] == old(
                            self,
                        )@.alerts[i])
                    &&& final(self)@.alerts.last().market_condition_id@ == market_condition_id@
                    &&& final(self)@.alerts.last().alert_type@ == alert_type@
                    &&& final(self)@.alerts.last().details@ == details@
                    &&& final(self)@.alerts.last().action_taken@ == action_taken@
                    &&& final(self)@.alerts.last().cycle_number == cycle_number
                },
                Err(e) => {
                    &&& e == LedgerError::CapacityExceeded
                    &&& old(self)@.alerts.len() >= TABLE_CAP
                    &&& final(self)@ == old(self)@
                },
            },
    {
        if self.alerts.len() >= TABLE_CAP {
            return Err(LedgerError::CapacityExceeded);
        }
        self.alerts.push(
            AlertRow {
                market_condition_id: market_condition_id.to_owned(),
                alert_type: alert_type.to_owned(),
                details: details.to_owned(),
                action_taken: action_taken.to_owned(),
                cycle_number,
            },
        );
        Ok(())
    }

    /// Append one weather snapshot for the cycle.
    pub fn insert_weather_snapshot(
        &mut self,
        cycle_number: i64,
        city: &str,
        forecast_date: &str,
        ensemble_mean: i64,
        ensemble_std: i64,
        gefs_count: i32,
        ecmwf_count: i32,
        bucket_data: &str,
    ) -> (r: Result<(), LedgerError>)
        requires
            old(self).wf(),
        ensures
            final(self).wf(),
            same_except_snapshots(old(self)@, final(self)@),
            match r {
                Ok(()) => {
                    &&& old(self)@.weather_snapshots.len() < TABLE_CAP
                    &&& final(self)@.weather_snapshots.len() == old(
                        self,
                    )@.weather_snapshots.len() + 1
                    &&& (forall|i: int|
                        0 <= i < old(self)@.weather_snapshots.len()
                            ==> final(self)@.weather_snapshots[i] == old(
                            self,
                        )@.weather_snapshots[i])
                    &&& final(self)@.weather_snapshots.last().cycle_number == cycle_number
                    &&& final(self)@.weather_snapshots.last().city@ == city@
                    &&& final(self)@.weather_snapshots.last().forecast_date@ == forecast_date@
                    &&& final(self)@.weather_snapshots.last().ensemble_mean == ensemble_mean
                    &&& final(self)@.weather_snapshots.last().ensemble_std == ensemble_std
                },
                Err(e) => {
                    &&& e == LedgerError::CapacityExceeded
                    &&& old(self)@.weather_snapshots.len() >= TABLE_CAP
                    &&& final(self)@ == old(self)@
                },
            },
    {
        if self.weather_snapshots.len() >= TABLE_CAP {
            return Err(LedgerError::CapacityExceeded);
        }
        self.weather_snapshots.push(
            WeatherSnapshotRow {
                cycle_number,
                city: city.to_owned(),
                forecast_date: forecast_date.to_owned(),
                ensemble_mean,
                ensemble_std,
                gefs_count,
                ecmwf_count,
                bucket_data: bucket_data.to_owned(),
            },
        );
        Ok(())
    }
}


// ─── Read queries ───

/// A position row with its question replaced by the question of its
/// market, when the market is known.
pub open spec fn with_market_question(p: PositionRow, ms: Seq<MarketRow>) -> PositionRow {
    let k = find_market(ms, p.market_condition_id@, 0);
    if k < ms.len() {
        PositionRow { question: Some(ms[k].question), ..p }
    } else {
        PositionRow { question: None, ..p }
    }
}

/// The index of the last position row for (market, side), or -1.
pub open spec fn find_last_position(ps: Seq<PositionRow>, m: Seq<char>, s: Seq<char>) -> int
    decreases ps.len(),
{
    if ps.len() == 0 {
        -1
    } else if ps.last().market_condition_id@ == m && ps.last().side@ == s {
        ps.len() - 1
    } else {
        find_last_position(ps.drop_last(), m, s)
    }
}

impl Database {
    /// All open positions, in table order.
    pub fn get_open_positions(&self) -> (r: Vec<PositionRow>)
        requires
            self.wf(),
        ensures
            r@ == open_rows(self@.positions),
    {
        let ghost ps = self@.positions;
        let n = self.positions.len();
        let mut out: Vec<PositionRow> = Vec::new();
        let mut i: usize = 0;
        proof {
            assert(ps.subrange(0, 0) =~= Seq::<PositionRow>::empty());
            assert(open_rows(ps.subrange(0, 0)) =~= Seq::<PositionRow>::empty());
        }
        while i < n
            invariant
                0 <= i <= n,
                self.wf(),
                ps == self@.positions,
                n == ps.len(),
                out@ == open_rows(ps.subrange(0, i as int)),
            decreases n - i,
        {
            let p = &self.positions[i];
            proof {
                assert(ps.subrange(0, i + 1).drop_last() =~= ps.subrange(0, i as int));
                assert(ps.subrange(0, i + 1).last() == ps[i as int]);
            }
            if is_open_exec(p) {
                out.push(clone_position_row(p));
            }
            i += 1;
        }
        proof {
            assert(ps.subrange(0, n as int) =~= ps);
        }
        out
    }

    /// All open positions with each row's question filled in from its
    /// market.
    pub fn get_open_positions_with_market(&self) -> (r: Vec<PositionRow>)
        requires
            self.wf(),
        ensures
            r@ == open_rows(self@.positions).map_values(
                |p: PositionRow| with_market_question(p, self@.markets),
            ),
    {
        let open = self.get_open_positions();
        let ghost target = open_rows(self@.positions).map_values(
            |p: PositionRow| with_market_question(p, self@.markets),
        );
        let mut out: Vec<PositionRow> = Vec::new();
        let n = open.len();
        let mut i: usize = 0;
        while i < n
            invariant
                0 <= i <= n,
                self.wf(),
                n == open@.len(),
                open@ == open_rows(self@.positions),
                target == open_rows(self@.positions).map_values(
                    |p: PositionRow| with_market_question(p, self@.markets),
                ),
                out@.len() == i,
                forall|j: int| 0 <= j < i ==> #[trigger] out@[j] == target[j],
            decreases n - i,
        {
            let p = &open[i];
            let k = self.find_market_exec(&p.market_condition_id);
            let question = if k < self.markets.len() {
                Some(self.markets[k].question.clone())
            } else {
                None
            };
            let row = PositionRow {
                market_condition_id: p.market_condition_id.clone(),
                token_id: p.token_id.clone(),
                side: p.side.clone(),
                entry_price: p.entry_price,
                size: p.size,
                status: p.status.clone(),
                current_price: p.current_price,
                unrealized_pnl: p.unrealized_pnl,
                realized_pnl: p.realized_pnl,
                estimated_probability: p.estimated_probability,
                question,
            };
            proof {
                assert(target[i as int] == with_market_question(open@[i as int], self@.markets));
            }
            out.push(row);
            i += 1;
        }
        proof {
            assert(out@ =~= target);
        }
        out
    }

    /// The most recent `limit` trades, newest first, each joined with
    /// its market's question and the state of the last position of its
    /// market and side.
    pub fn get_recent_trades(&self, limit: i64) -> (r: Vec<TradeRow>)
        requires
            self.wf(),
            0 <= limit,
        ensures
            r@.len() == if limit <= self@.trades.len() {
                limit as int
            } else {
                self@.trades.len() as int
            },
            forall|k: int|
                0 <= k < r@.len() ==> {
                    let t = self@.trades[self@.trades.len() - 1 - k];
                    let mi = find_market(self@.markets, t.market_condition_id@, 0);
                    let pi = find_last_position(self@.positions, t.market_condition_id@, t.side@);
                    &&& (#[trigger] r@[k]).trade_id@ == t.trade_id@
                    &&& r@[k].market_condition_id@ == t.market_condition_id@
                    &&& r@[k].side@ == t.side@
                    &&& r@[k].price == t.price
                    &&& r@[k].size == t.size
                    &&& r@[k].status@ == t.status@
                    &&& r@[k].paper == t.paper
                    &&& r@[k].entry_fee == t.entry_fee
                    &&& r@[k].question == if mi < self@.markets.len() {
                        Some(self@.markets[mi].question)
                    } else {
                        None::<String>
                    }
                    &&& r@[k].realized_pnl == if pi >= 0 {
                        Some(self@.positions[pi].realized_pnl)
                    } else {
                        None::<i64>
                    }
                    &&& r@[k].unrealized_pnl == if pi >= 0 {
                        Some(self@.positions[pi].unrealized_pnl)
                    } else {
                        None::<i64>
                    }
                },
    {
        let n = self.trades.len();
        let lim: usize = if limit <= n as i64 {
            limit as usize
        } else {
            n
        };
        let mut out: Vec<TradeRow> = Vec::new();
        let mut k: usize = 0;
        while k < lim
            invariant
                0 <= k <= lim,
                self.wf(),
                lim <= n,
                n == self@.trades.len(),
                out@.len() == k,
                forall|j: int|
                    0 <= j < k ==> {
                        let t = self@.trades[self@.trades.len() - 1 - j];
                        let mi = find_market(self@.markets, t.market_condition_id@, 0);
                        let pi = find_last_position(
                            self@.positions,
                            t.market_condition_id@,
                            t.side@,
                        );
                        &&& (#[trigger] out@[j]).trade_id@ == t.trade_id@
                        &&& out@[j].market_condition_id@ == t.market_condition_id@
                        &&& out@[j].side@ == t.side@
                        &&& out@[j].price == t.price
                        &&& out@[j].size == t.size
                        &&& out@[j].status@ == t.status@
                        &&& out@[j].paper == t.paper
                        &&& out@[j].entry_fee == t.entry_fee
                        &&& out@[j].question == if mi < self@.markets.len() {
                            Some(self@.markets[mi].question)
                        } else {
                            None::<String>
                        }
                        &&& out@[j].realized_pnl == if pi >= 0 {
                            Some(self@.positions[pi].realized_pnl)
                        } else {
                            None::<i64>
                        }
                        &&& out@[j].unrealized_pnl == if pi >= 0 {
                            Some(self@.positions[pi].unrealized_pnl)
                        } else {
                            None::<i64>
                        }
                    },
            decreases lim - k,
        {
            let idx = n - 1 - k;
            let t = &self.trades[idx];
            let mi = self.find_market_exec(&t.market_condition_id);
            let question = if mi < self.markets.len() {
                Some(self.markets[mi].question.clone())
            } else {
                None
            };
            let pi = self.find_last_position_exec(&t.market_condition_id, &t.side);
            let (rp, up) = match pi {
                Some(p) => (
                    Some(self.positions[p].realized_pnl),
                    Some(self.positions[p].unrealized_pnl),
                ),
                None => (None, None),
            };
            let row = TradeRow {
                trade_id: t.trade_id.clone(),
                market_condition_id: t.market_condition_id.clone(),
                token_id: t.token_id.clone(),
                side: t.side.clone(),
                price: t.price,
                size: t.size,
                status: t.status.clone(),
                paper: t.paper,
                entry_fee: t.entry_fee,
                question,
                realized_pnl: rp,
                unrealized_pnl: up,
                position_status: None,
            };
            out.push(row);
            k += 1;
        }
        out
    }

    /// The index of the last (most recent) position row of (market,
    /// side), if any.
    fn find_last_position_exec(&self, market: &String, side: &String) -> (r: Option<usize>)
        requires
            self.wf(),
        ensures
            match r {
                Some(i) => i == find_last_position(self@.positions, market@, side@) && i
                    < self@.positions.len(),
                None => find_last_position(self@.positions, market@, side@) == -1,
            },
    {
        let ghost ps = self@.positions;
        let n = self.positions.len();
        let mut i: usize = n;
        proof {
            assert(ps.subrange(0, n as int) =~= ps);
        }
        while i > 0
            invariant
                0 <= i <= n,
                self.wf(),
                ps == self@.positions,
                n == ps.len(),
                find_last_position(ps, market@, side@) == find_last_position(
                    ps.subrange(0, i as int),
                    market@,
                    side@,
                ),
            decreases i,
        {
            let p = &self.positions[i - 1];
            proof {
                assert(ps.subrange(0, i as int).last() == ps[i - 1]);
                assert(ps.subrange(0, i as int).drop_last() =~= ps.subrange(0, i - 1));
            }
            if p.market_condition_id.eq(market) && p.side.eq(side) {
                return Some(i - 1);
            }
            i -= 1;
        }
        proof {
            assert(ps.subrange(0, 0) =~= Seq::<PositionRow>::empty());
        }
        None
    }
}

/// Clone a position row, keeping its value.
fn clone_position_row(p: &PositionRow) -> (r: PositionRow)
    ensures
        r == *p,
{
    PositionRow {
        market_condition_id: p.market_condition_id.clone(),
        token_id: p.token_id.clone(),
        side: p.side.clone(),
        entry_price: p.entry_price,
        size: p.size,
        status: p.status.clone(),
        current_price: p.current_price,
        unrealized_pnl: p.unrealized_pnl,
        realized_pnl: p.realized_pnl,
        estimated_probability: p.estimated_probability,
        question: clone_opt_string(&p.question),
    }
}


// ─── Weather tables and opportunity reads ───

/// The index of the first weather-actual row for (city, date), or the
/// table length.
pub open spec fn find_actual(
    rows: Seq<WeatherActualRow>,
    city: Seq<char>,
    date: Seq<char>,
    from: int,
) -> int
    decreases rows.len() - from,
{
    if from < 0 || from >= rows.len() {
        rows.len() as int
    } else if rows[from].city@ == city && rows[from].forecast_date@ == date {
        from
    } else {
        find_actual(rows, city, date, from + 1)
    }
}

proof fn lemma_find_actual_props(
    rows: Seq<WeatherActualRow>,
    city: Seq<char>,
    date: Seq<char>,
    from: int,
)
    requires
        0 <= from <= rows.len(),
    ensures
        from <= find_actual(rows, city, date, from) <= rows.len(),
        find_actual(rows, city, date, from) < rows.len() ==> rows[find_actual(
            rows,
            city,
            date,
            from,
        )].city@ == city && rows[find_actual(rows, city, date, from)].forecast_date@ == date,
    decreases rows.len() - from,
{
    if from < rows.len() && !(rows[from].city@ == city && rows[from].forecast_date@ == date) {
        lemma_find_actual_props(rows, city, date, from + 1);
    }
}

/// A field kept when the update carries nothing new.
pub open spec fn coalesce<T>(new: Option<T>, old: Option<T>) -> Option<T> {
    match new {
        Some(v) => Some(v),
        None => old,
    }
}

impl Database {
    /// Insert a weather observation, or fill the missing fields of the
    /// row already stored for (city, date): each given field replaces
    /// the stored one, each absent field keeps it.
    pub fn insert_weather_actual(
        &mut self,
        city: &str,
        forecast_date: &str,
        wu_actual_high: Option<i64>,
        nws_forecast_high: Option<i64>,
        ensemble_mean: Option<i64>,
        predicted_bucket: Option<&str>,
        actual_bucket: Option<&str>,
        prediction_error: Option<i64>,
    ) -> (r: Result<(), LedgerError>)
        requires
            old(self).wf(),
        ensures
            final(self).wf(),
            same_except_actuals(old(self)@, final(self)@),
            ({
                let rows = old(self)@.weather_actuals;
                let rows2 = final(self)@.weather_actuals;
                let k = find_actual(rows, city@, forecast_date@, 0);
                match r {
                    Ok(()) => {
                        if k < rows.len() {
                            &&& rows2.len() == rows.len()
                            &&& (forall|i: int| 0 <= i < rows.len() && i != k ==> rows2[i]
                                == rows[i])
                            &&& rows2[k].city@ == city@
                            &&& rows2[k].forecast_date@ == forecast_date@
                            &&& rows2[k].wu_actual_high == coalesce(
                                wu_actual_high,
                                rows[k].wu_actual_high,
                            )
                            &&& rows2[k].nws_forecast_high == coalesce(
                                nws_forecast_high,
                                rows[k].nws_forecast_high,
                            )
                            &&& rows2[k].ensemble_mean == coalesce(
                                ensemble_mean,
                                rows[k].ensemble_mean,
                            )
                            &&& rows2[k].prediction_error == coalesce(
                                prediction_error,
                                rows[k].prediction_error,
                            )
                        } else {
                            &&& rows.len() < TABLE_CAP
                            &&& rows2.len() == rows.len() + 1
                            &&& (forall|i: int| 0 <= i < rows.len() ==> rows2[i] == rows[i])
                            &&& rows2.last().city@ == city@
                            &&& rows2.last().forecast_date@ == forecast_date@
                            &&& rows2.last().wu_actual_high == wu_actual_high
                            &&& rows2.last().nws_forecast_high == nws_forecast_high
                            &&& rows2.last().ensemble_mean == ensemble_mean
                            &&& rows2.last().prediction_error == prediction_error
                        }
                    },
                    Err(e) => {
                        &&& e == LedgerError::CapacityExceeded
                        &&& rows.len() >= TABLE_CAP
                        &&& rows2 == rows
                    },
                }
            }),
    {
        let c = city.to_owned();
        let d = forecast_date.to_owned();
        let k = self.find_actual_exec(&c, &d);
        proof {
            lemma_find_actual_props(self@.weather_actuals, c@, d@, 0);
        }
        if k < self.weather_actuals.len() {
            let old_row = &self.weather_actuals[k];
            let new_row = WeatherActualRow {
                city: old_row.city.clone(),
                forecast_date: old_row.forecast_date.clone(),
                wu_actual_high: match wu_actual_high {
                    Some(v) => Some(v),
                    None => old_row.wu_actual_high,
                },
                nws_forecast_high: match nws_forecast_high {
                    Some(v) => Some(v),
                    None => old_row.nws_forecast_high,
                },
                ensemble_mean: match ensemble_mean {
                    Some(v) => Some(v),
                    None => old_row.ensemble_mean,
                },
                predicted_bucket: match predicted_bucket {
                    Some(v) => Some(v.to_owned()),
                    None => clone_opt_string(&old_row.predicted_bucket),
                },
                actual_bucket: match actual_bucket {
                    Some(v) => Some(v.to_owned()),
                    None => clone_opt_string(&old_row.actual_bucket),
                },
                prediction_error: match prediction_error {
                    Some(v) => Some(v),
                    None => old_row.prediction_error,
                },
            };
            self.weather_actuals.set(k, new_row);
            Ok(())
        } else {
            if self.weather_actuals.len() >= TABLE_CAP {
                return Err(LedgerError::CapacityExceeded);
            }
            self.weather_actuals.push(
                WeatherActualRow {
                    city: c,
                    forecast_date: d,
                    wu_actual_high,
                    nws_forecast_high,
                    ensemble_mean,
                    predicted_bucket: match predicted_bucket {
                        Some(v) => Some(v.to_owned()),
                        None => None,
                    },
                    actual_bucket: match actual_bucket {
                        Some(v) => Some(v.to_owned()),
                        None => None,
                    },
                    prediction_error,
                },
            );
            Ok(())
        }
    }

    /// Find the stored row for (city, date), if any.
    fn find_actual_exec(&self, c: &String, d: &String) -> (r: usize)
        requires
            self.wf(),
        ensures
            r == find_actual(self@.weather_actuals, c@, d@, 0),
    {
        proof {
            lemma_find_actual_props(self@.weather_actuals, c@, d@, 0);
        }
        let n = self.weather_actuals.len();
        let mut k: usize = 0;
        while k < n
            invariant
                0 <= k <= n,
                n == self@.weather_actuals.len(),
                k <= find_actual(self@.weather_actuals, c@, d@, 0),
                find_actual(self@.weather_actuals, c@, d@, 0) == find_actual(
                    self@.weather_actuals,
                    c@,
                    d@,
                    k as int,
                ),
            decreases n - k,
        {
            let row = &self.weather_actuals[k];
            if row.city.eq(c) && row.forecast_date.eq(d) {
                return k;
            }
            k += 1;
            proof {
                lemma_find_actual_props(self@.weather_actuals, c@, d@, k as int);
            }
        }
        n
    }

    /// The stored observations of a city, most recently inserted
    /// first, capped at `limit`. Rows arrive one per day, so insertion
    /// order is date order.
    pub fn get_weather_actuals(&self, city: &str, limit: i64) -> (r: Vec<WeatherActualRow>)
        requires
            self.wf(),
            0 <= limit,
        ensures
            r@.len() <= limit,
            forall|j: int| 0 <= j < r@.len() ==> (#[trigger] r@[j]).city@ == city@,
    {
        let c = city.to_owned();
        let n = self.weather_actuals.len();
        let mut out: Vec<WeatherActualRow> = Vec::new();
        let mut i: usize = n;
        while i > 0
            invariant
                0 <= i <= n,
                self.wf(),
                n == self@.weather_actuals.len(),
                c@ == city@,
                out@.len() <= limit,
                forall|j: int| 0 <= j < out@.len() ==> (#[trigger] out@[j]).city@ == city@,
            decreases i,
        {
            if out.len() as i64 >= limit {
                return out;
            }
            let row = &self.weather_actuals[i - 1];
            if row.city.eq(&c) {
                out.push(
                    WeatherActualRow {
                        city: row.city.clone(),
                        forecast_date: row.forecast_date.clone(),
                        wu_actual_high: row.wu_actual_high,
                        nws_forecast_high: row.nws_forecast_high,
                        ensemble_mean: row.ensemble_mean,
                        predicted_bucket: clone_opt_string(&row.predicted_bucket),
                        actual_bucket: clone_opt_string(&row.actual_bucket),
                        prediction_error: row.prediction_error,
                    },
                );
            }
            i -= 1;
        }
        out
    }

    /// The snapshots of the highest cycle number on record, in table
    /// order.
    pub fn get_latest_weather_snapshots(&self) -> (r: Vec<WeatherSnapshotRow>)
        requires
            self.wf(),
        ensures
            forall|j: int, k: int|
                0 <= j < r@.len() && 0 <= k < self@.weather_snapshots.len() ==> (
                #[trigger] r@[j]).cycle_number >= (#[trigger] self@.weather_snapshots[
                    k
                ]).cycle_number,
    {
        let n = self.weather_snapshots.len();
        // Find the highest cycle number.
        let mut max_cycle: i64 = i64::MIN;
        let mut i: usize = 0;
        while i < n
            invariant
                0 <= i <= n,
                self.wf(),
                n == self@.weather_snapshots.len(),
                forall|k: int|
                    0 <= k < i ==> (#[trigger] self@.weather_snapshots[k]).cycle_number
                        <= max_cycle,
            decreases n - i,
        {
            if self.weather_snapshots[i].cycle_number > max_cycle {
                max_cycle = self.weather_snapshots[i].cycle_number;
            }
            i += 1;
        }
        let mut out: Vec<WeatherSnapshotRow> = Vec::new();
        let mut j: usize = 0;
        while j < n
            invariant
                0 <= j <= n,
                self.wf(),
                n == self@.weather_snapshots.len(),
                forall|a: int, k: int|
                    0 <= a < out@.len() && 0 <= k < n ==> (#[trigger] out@[a]).cycle_number >= (
                    #[trigger] self@.weather_snapshots[k]).cycle_number,
                forall|k: int|
                    0 <= k < n ==> (#[trigger] self@.weather_snapshots[k]).cycle_number
                        <= max_cycle,
            decreases n - j,
        {
            let row = &self.weather_snapshots[j];
            if row.cycle_number == max_cycle {
                out.push(
                    WeatherSnapshotRow {
                        cycle_number: row.cycle_number,
                        city: row.city.clone(),
                        forecast_date: row.forecast_date.clone(),
                        ensemble_mean: row.ensemble_mean,
                        ensemble_std: row.ensemble_std,
                        gefs_count: row.gefs_count,
                        ecmwf_count: row.ecmwf_count,
                        bucket_data: row.bucket_data.clone(),
                    },
                );
            }
            j += 1;
        }
        out
    }

    /// The most recently recorded opportunities, newest insertion
    /// first, capped at `limit`. Rows are inserted in cycle order,
    /// within a cycle in descending net edge.
    pub fn get_recent_opportunities(&self, limit: i64) -> (r: Vec<OpportunityRow>)
        requires
            self.wf(),
            0 <= limit,
        ensures
            r@.len() == if limit <= self@.opportunities.len() {
                limit as int
            } else {
                self@.opportunities.len() as int
            },
            forall|a: int|
                0 <= a < r@.len() ==> {
                    let o = self@.opportunities[self@.opportunities.len() - 1 - a];
                    &&& (#[trigger] r@[a]).cycle_number == o.cycle_number
                    &&& r@[a].condition_id@ == o.condition_id@
                    &&& r@[a].question@ == o.question@
                    &&& r@[a].side@ == o.side@
                    &&& r@[a].market_price == o.market_price
                    &&& r@[a].estimated_probability == o.estimated_probability
                    &&& r@[a].edge == o.edge
                    &&& r@[a].confidence == o.confidence
                    &&& r@[a].status@ == o.status@
                },
    {
        let n = self.opportunities.len();
        let mut out: Vec<OpportunityRow> = Vec::new();
        if limit == 0 {
            return out;
        }
        let mut i: usize = n;
        while i > 0
            invariant
                0 <= i <= n,
                self.wf(),
                0 < limit,
                n == self@.opportunities.len(),
                out@.len() == n - i,
                out@.len() < limit,
                forall|a: int|
                    0 <= a < out@.len() ==> {
                        let o = self@.opportunities[n - 1 - a];
                        &&& (#[trigger] out@[a]).cycle_number == o.cycle_number
                        &&& out@[a].condition_id@ == o.condition_id@
                        &&& out@[a].question@ == o.question@
                        &&& out@[a].side@ == o.side@
                        &&& out@[a].market_price == o.market_price
                        &&& out@[a].estimated_probability == o.estimated_probability
                        &&& out@[a].edge == o.edge
                        &&& out@[a].confidence == o.confidence
                        &&& out@[a].status@ == o.status@
                    },
            decreases i,
        {
            let row = &self.opportunities[i - 1];
            out.push(
                OpportunityRow {
                    cycle_number: row.cycle_number,
                    condition_id: row.condition_id.clone(),
                    question: row.question.clone(),
                    side: row.side.clone(),
                    market_price: row.market_price,
                    estimated_probability: row.estimated_probability,
                    edge: row.edge,
                    confidence: row.confidence,
                    status: row.status.clone(),
                    reject_reason: clone_opt_string(&row.reject_reason),
                },
            );
            i -= 1;
            if out.len() as i64 >= limit {
                return out;
            }
        }
        out
    }
}

// ─── Pointwise consequences of the invariants ───

/// Peak-bankroll rows are monotonically non-decreasing in row order.
pub proof fn lemma_peaks_monotone(v: LedgerView, i: int, j: int)
    requires
        ledger_wf(v),
        0 <= i <= j < v.peaks.len(),
    ensures
        v.peaks[i] <= v.peaks[j],
{
    lemma_rising_pointwise(v.peaks, i, j);
}

proof fn lemma_rising_pointwise(s: Seq<i64>, i: int, j: int)
    requires
        strictly_rising(s),
        0 <= i <= j < s.len(),
    ensures
        s[i] <= s[j],
    decreases s.len(),
{
    if j == s.len() - 1 && i < j {
        assert(s.drop_last()[j - 1] == s[j - 1]);
        lemma_rising_pointwise(s.drop_last(), i, j - 1);
    } else if j < s.len() - 1 {
        lemma_rising_pointwise(s.drop_last(), i, j);
    }
}

/// In a well-formed ledger every bankroll row continues the chain: its
/// balance is the previous row's balance plus its own amount.
pub proof fn lemma_bankroll_chain(v: LedgerView, n: int)
    requires
        ledger_wf(v),
        0 <= n < v.bankroll_log.len(),
    ensures
        v.bankroll_log[n].balance_after == (if n == 0 {
            0
        } else {
            v.bankroll_log[n - 1].balance_after as int
        }) + v.bankroll_log[n].amount,
{
    lemma_chained_pointwise(v.bankroll_log, n);
}

proof fn lemma_chained_pointwise(bl: Seq<BankrollEntry>, n: int)
    requires
        bankroll_chained(bl),
        0 <= n < bl.len(),
    ensures
        bl[n].balance_after == (if n == 0 {
            0
        } else {
            bl[n - 1].balance_after as int
        }) + bl[n].amount,
    decreases bl.len(),
{
    if n == bl.len() - 1 {
        if n > 0 {
            assert(bl.drop_last()[n - 1] == bl[n - 1]);
            assert(bl.drop_last().last() == bl[n - 1]);
        }
    } else {
        assert(bl.drop_last()[n] == bl[n]);
        if n > 0 {
            assert(bl.drop_last()[n - 1] == bl[n - 1]);
        }
        lemma_chained_pointwise(bl.drop_last(), n);
    }
}


/// In a well-formed ledger, every stored open position's unrealized
/// P&L is exactly what its stored prices imply.
pub proof fn lemma_unrealized_pnl_consistent(v: LedgerView, i: int)
    requires
        ledger_wf(v),
        0 <= i < v.positions.len(),
        is_open(v.positions[i]),
        v.positions[i].current_price is Some,
    ensures
        v.positions[i].unrealized_pnl == pnl_of(
            v.positions[i].entry_price as int,
            v.positions[i].current_price.unwrap() as int,
            v.positions[i].size as int,
        ),
{
}

/// In a well-formed ledger, no two open positions share a market and
/// side.
pub proof fn lemma_one_open_position_per_slot(v: LedgerView, i: int, j: int)
    requires
        ledger_wf(v),
        0 <= i < j < v.positions.len(),
        is_open(v.positions[i]),
        is_open(v.positions[j]),
    ensures
        !same_slot(v.positions[i], v.positions[j]),
{
}

/// In a well-formed ledger, every cycle summary carries exactly the
/// summed API cost of its cycle.
pub proof fn lemma_cycle_cost_consistent(v: LedgerView, i: int)
    requires
        ledger_wf(v),
        0 <= i < v.cycle_log.len(),
    ensures
        v.cycle_log[i].api_cost_usd == sum_cycle_cost(
            v.api_cost_log,
            v.cycle_log[i].cycle_number as int,
        ),
        v.cycle_log[i].cycle_number == i + 1,
{
}

/// In a well-formed ledger, no opportunity of a closed cycle is still
/// pending.
pub proof fn lemma_no_pending_after_close(v: LedgerView, i: int)
    requires
        ledger_wf(v),
        0 <= i < v.opportunities.len(),
        v.opportunities[i].cycle_number <= v.cycle_log.len(),
    ensures
        v.opportunities[i].status@ != "pending"@,
{
}

/// In a well-formed ledger, a seed entry stands only as the first row.
pub proof fn lemma_seed_only_first(v: LedgerView, i: int)
    requires
        ledger_wf(v),
        1 <= i < v.bankroll_log.len(),
    ensures
        !(v.bankroll_log[i].entry_type is Seed),
{
}

} // verus!

