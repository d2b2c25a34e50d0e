//! The position manager: per-position exit rules and portfolio caps.
//!
//! Each cycle every open position's price is refreshed and one of
//! hold, exit or re-analyze is decided: weather positions are held to
//! resolution and exit only on edge decay, everything else checks
//! stop-loss and take-profit first. At the portfolio level the manager
//! caps correlated weather exposure by city group, total weather
//! exposure, and tracks the drawdown circuit breaker.

use vstd::prelude::*;
use vstd::string::StringSliceAdditionalSpecFns;

use crate::ledger::{spec_peak, Database, LedgerError, LedgerView, PositionRow};
use crate::money::{mul_div_floor, SCALE};
use crate::weather::{parse_weather_market, spec_city_of, spec_extract_date,
    spec_is_weather_question, spec_temperature_range, string_bytes, valid_parsed_date};

verus! {

/// Action to take for a position after its checks.
#[derive(Debug, Clone, PartialEq)]
pub enum PositionAction {
    Hold,
    Exit { reason: String },
    ReAnalyze { reason: String },
}

/// An alert the manager emits.
#[derive(Debug, Clone)]
pub struct PositionAlert {
    pub market_condition_id: String,
    pub alert_type: String,
    pub details: String,
    pub action_taken: String,
}

/// Tallies of one management sweep.
#[derive(Debug)]
pub struct PositionManagementResult {
    pub positions_checked: usize,
    pub exits_triggered: Vec<(PositionRow, String)>,
    pub re_analyses_triggered: usize,
    pub alerts: Vec<PositionAlert>,
}

/// Drawdown relative to the stored peak.
#[derive(Debug, Clone, Copy, PartialEq, Eq, Structural)]
pub struct DrawdownState {
    pub peak_bankroll: i64,
    pub current_bankroll: i64,
    pub drawdown_pct: i64,
    pub is_circuit_breaker_active: bool,
}

/// A named group of cities whose weather outcomes are treated as
/// correlated.
#[derive(Debug, Clone)]
pub struct CorrelationGroup {
    pub name: String,
    pub cities: Vec<String>,
}

pub struct PositionManager {
    pub stop_loss_pct: i64,
    pub take_profit_pct: i64,
    pub min_exit_edge: i64,
    pub volume_spike_factor: i64,
    pub whale_move_threshold: i64,
    pub max_correlated_exposure_pct: i64,
    pub max_total_weather_exposure_pct: i64,
    pub correlation_groups: Vec<CorrelationGroup>,
}

// ─── The per-position decision ───

/// Stop-loss: the price fell by more than the threshold fraction of
/// the entry price.
pub open spec fn spec_stop_loss_hit(entry: int, current: int, sl: int) -> bool {
    entry > 0 && (entry - current) * SCALE > sl * entry
}

/// Take-profit: the captured share of the maximum profit reached the
/// threshold.
pub open spec fn spec_take_profit_hit(entry: int, current: int, tp: int) -> bool {
    entry < SCALE && (current - entry) * SCALE >= tp * (SCALE - entry)
}

/// Edge decay: a stored estimate sits within the minimum exit edge of
/// the price.
pub open spec fn spec_edge_decay_hit(est: Option<i64>, current: int, min_exit: int) -> bool {
    match est {
        Some(e) => (if e - current >= 0 { e - current } else { current - e }) < min_exit,
        None => false,
    }
}

/// Whether a stored question parses as a weather market.
pub open spec fn spec_is_weather_position(
    p: PositionRow,
    ty: int,
    tm: int,
    td: int,
) -> bool {
    match p.question {
        Some(q) => {
            &&& spec_is_weather_question(string_bytes(q))
            &&& spec_city_of(string_bytes(q)) is Some
            &&& valid_parsed_date(spec_extract_date(string_bytes(q), ty, tm, td))
            &&& spec_temperature_range(string_bytes(q)) is Some
        },
        None => false,
    }
}

/// The decision for one position, checks in order: weather markets
/// skip the price-based exits; stop-loss, then take-profit, then edge
/// decay; else hold.
pub open spec fn spec_decision(
    sl: int,
    tp: int,
    min_exit: int,
    is_weather: bool,
    entry: int,
    current: int,
    est: Option<i64>,
) -> PositionDecision {
    if !is_weather && spec_stop_loss_hit(entry, current, sl) {
        PositionDecision::ExitStopLoss
    } else if !is_weather && spec_take_profit_hit(entry, current, tp) {
        PositionDecision::ExitTakeProfit
    } else if spec_edge_decay_hit(est, current, min_exit) {
        PositionDecision::ExitEdgeDecay
    } else {
        PositionDecision::Hold
    }
}

/// The shape of the decision, named for contracts.
#[derive(Debug, Clone, Copy, PartialEq, Eq, Structural)]
pub enum PositionDecision {
    Hold,
    ExitStopLoss,
    ExitTakeProfit,
    ExitEdgeDecay,
}

/// Whether an action matches a decision.
pub open spec fn action_matches(a: PositionAction, d: PositionDecision) -> bool {
    match d {
        PositionDecision::Hold => a is Hold,
        PositionDecision::ExitStopLoss => a matches PositionAction::Exit { reason } && reason@
            == "Stop-loss"@,
        PositionDecision::ExitTakeProfit => a matches PositionAction::Exit { reason } && reason@
            == "Take-profit"@,
        PositionDecision::ExitEdgeDecay => a matches PositionAction::Exit { reason } && reason@
            == "Edge decay"@,
    }
}

// ─── Portfolio sums ───

/// Whether a position belongs to one of the given cities' weather
/// markets.
pub open spec fn in_cities(
    p: PositionRow,
    cities: Seq<String>,
    ty: int,
    tm: int,
    td: int,
) -> bool {
    &&& spec_is_weather_position(p, ty, tm, td)
    &&& match p.question {
        Some(q) => exists|i: int|
            0 <= i < cities.len() && spec_city_of(string_bytes(q)) == Some(
                (#[trigger] cities[i])@,
            ),
        None => false,
    }
}

/// Exposure (entry price times size) of the positions in the given
/// cities.
pub open spec fn group_exposure(
    ps: Seq<PositionRow>,
    cities: Seq<String>,
    ty: int,
    tm: int,
    td: int,
) -> int
    decreases ps.len(),
{
    if ps.len() == 0 {
        0
    } else {
        group_exposure(ps.drop_last(), cities, ty, tm, td) + if in_cities(
            ps.last(),
            cities,
            ty,
            tm,
            td,
        ) {
            crate::ledger::exposure_of(ps.last())
        } else {
            0
        }
    }
}

/// Exposure of all weather positions.
pub open spec fn weather_exposure(ps: Seq<PositionRow>, ty: int, tm: int, td: int) -> int
    decreases ps.len(),
{
    if ps.len() == 0 {
        0
    } else {
        weather_exposure(ps.drop_last(), ty, tm, td) + if spec_is_weather_position(
            ps.last(),
            ty,
            tm,
            td,
        ) {
            crate::ledger::exposure_of(ps.last())
        } else {
            0
        }
    }
}

/// Rows every portfolio sum can take: prices and sizes in range.
pub open spec fn rows_bounded(ps: Seq<PositionRow>) -> bool {
    forall|i: int|
        0 <= i < ps.len() ==> 0 <= (#[trigger] ps[i]).entry_price <= SCALE && 0 <= ps[i].size
            <= crate::ledger::SIZE_LIMIT
}

/// The indices of the groups, below `upto`, whose exposure exceeds the
/// cap, in order.
pub open spec fn over_group_indices(
    groups: Seq<CorrelationGroup>,
    ps: Seq<PositionRow>,
    cap: int,
    ty: int,
    tm: int,
    td: int,
    upto: int,
) -> Seq<int>
    decreases upto,
{
    if upto <= 0 {
        Seq::empty()
    } else {
        let rest = over_group_indices(groups, ps, cap, ty, tm, td, upto - 1);
        if group_exposure(ps, groups[upto - 1].cities@, ty, tm, td) > cap {
            rest.push(upto - 1)
        } else {
            rest
        }
    }
}

/// Whether the question names a city of a group whose exposure already
/// meets or exceeds the cap.
pub open spec fn spec_group_over_limit(
    groups: Seq<CorrelationGroup>,
    max_pct: int,
    q: Seq<u8>,
    ps: Seq<PositionRow>,
    bankroll: int,
    ty: int,
    tm: int,
    td: int,
) -> bool {
    let cap = max_pct * bankroll / (SCALE as int);
    &&& spec_is_weather_question(q)
    &&& valid_parsed_date(spec_extract_date(q, ty, tm, td))
    &&& spec_temperature_range(q) is Some
    &&& exists|g: int|
        0 <= g < groups.len() && (exists|c: int|
            0 <= c < (#[trigger] groups[g]).cities@.len() && spec_city_of(q) == Some(
                (#[trigger] groups[g].cities@[c])@,
            )) && group_exposure(ps, groups[g].cities@, ty, tm, td) >= cap
}

/// The five fixed correlation groups and their city codes: Northeast,
/// Southeast, Midwest, Texas, West Coast.
pub open spec fn spec_default_groups(gs: Seq<CorrelationGroup>) -> bool {
    &&& gs.len() == 5
    &&& gs[0].name@ == "Northeast"@
    &&& gs[0].cities@.len() == 4
    &&& gs[0].cities@[0]@ == "NYC"@
    &&& gs[0].cities@[1]@ == "PHL"@
    &&& gs[0].cities@[2]@ == "BOS"@
    &&& gs[0].cities@[3]@ == "DCA"@
    &&& gs[1].name@ == "Southeast"@
    &&& gs[1].cities@.len() == 3
    &&& gs[1].cities@[0]@ == "MIA"@
    &&& gs[1].cities@[1]@ == "ATL"@
    &&& gs[1].cities@[2]@ == "TPA"@
    &&& gs[2].name@ == "Midwest"@
    &&& gs[2].cities@.len() == 4
    &&& gs[2].cities@[0]@ == "CHI"@
    &&& gs[2].cities@[1]@ == "DTW"@
    &&& gs[2].cities@[2]@ == "MSP"@
    &&& gs[2].cities@[3]@ == "STL"@
    &&& gs[3].name@ == "Texas"@
    &&& gs[3].cities@.len() == 3
    &&& gs[3].cities@[0]@ == "HOU"@
    &&& gs[3].cities@[1]@ == "DAL"@
    &&& gs[3].cities@[2]@ == "SAN"@
    &&& gs[4].name@ == "West Coast"@
    &&& gs[4].cities@.len() == 4
    &&& gs[4].cities@[0]@ == "LAX"@
    &&& gs[4].cities@[1]@ == "SDG"@
    &&& gs[4].cities@[2]@ == "SJC"@
    &&& gs[4].cities@[3]@ == "SEA"@
}

impl PositionManager {
    /// A manager with the given thresholds and the fixed correlation
    /// groups (Northeast, Southeast, Midwest, Texas, West Coast).
    pub fn new(
        stop_loss_pct: i64,
        take_profit_pct: i64,
        min_exit_edge: i64,
        volume_spike_factor: i64,
        whale_move_threshold: i64,
        max_correlated_exposure_pct: i64,
        max_total_weather_exposure_pct: i64,
    ) -> (r: PositionManager)
        ensures
            r.stop_loss_pct == stop_loss_pct,
            r.take_profit_pct == take_profit_pct,
            r.min_exit_edge == min_exit_edge,
            r.volume_spike_factor == volume_spike_factor,
            r.max_correlated_exposure_pct == max_correlated_exposure_pct,
            r.max_total_weather_exposure_pct == max_total_weather_exposure_pct,
            r.whale_move_threshold == whale_move_threshold,
            spec_default_groups(r.groups_view()),
    {
        let mut groups: Vec<CorrelationGroup> = Vec::new();
        let mut ne: Vec<String> = Vec::new();
        ne.push(String::from_str("NYC"));
        ne.push(String::from_str("PHL"));
        ne.push(String::from_str("BOS"));
        ne.push(String::from_str("DCA"));
        groups.push(CorrelationGroup { name: String::from_str("Northeast"), cities: ne });
        let mut se: Vec<String> = Vec::new();
        se.push(String::from_str("MIA"));
        se.push(String::from_str("ATL"));
        se.push(String::from_str("TPA"));
        groups.push(CorrelationGroup { name: String::from_str("Southeast"), cities: se });
        let mut mw: Vec<String> = Vec::new();
        mw.push(String::from_str("CHI"));
        mw.push(String::from_str("DTW"));
        mw.push(String::from_str("MSP"));
        mw.push(String::from_str("STL"));
        groups.push(CorrelationGroup { name: String::from_str("Midwest"), cities: mw });
        let mut tx: Vec<String> = Vec::new();
        tx.push(String::from_str("HOU"));
        tx.push(String::from_str("DAL"));
        tx.push(String::from_str("SAN"));
        groups.push(CorrelationGroup { name: String::from_str("Texas"), cities: tx });
        let mut wc: Vec<String> = Vec::new();
        wc.push(String::from_str("LAX"));
        wc.push(String::from_str("SDG"));
        wc.push(String::from_str("SJC"));
        wc.push(String::from_str("SEA"));
        groups.push(CorrelationGroup { name: String::from_str("West Coast"), cities: wc });
        PositionManager {
            stop_loss_pct,
            take_profit_pct,
            min_exit_edge,
            volume_spike_factor,
            whale_move_threshold,
            max_correlated_exposure_pct,
            max_total_weather_exposure_pct,
            correlation_groups: groups,
        }
    }

    /// The correlation groups, for contracts.
    pub open spec fn groups_view(&self) -> Seq<CorrelationGroup> {
        self.correlation_groups@
    }

    /// Decide what to do with one position at the given price; the
    /// caller's date decides whether its question reads as weather.
    pub fn evaluate_position(
        &self,
        pos: &PositionRow,
        current_price: i64,
        today_y: i64,
        today_m: i64,
        today_d: i64,
    ) -> (r: PositionAction)
        requires
            0 <= pos.entry_price <= SCALE,
            0 <= current_price <= SCALE,
            (match pos.estimated_probability {
                Some(e) => 0 <= e <= SCALE,
                None => true,
            }),
            0 <= self.stop_loss_pct <= SCALE,
            0 <= self.take_profit_pct <= SCALE,
            0 <= self.min_exit_edge <= SCALE,
            1 <= today_y <= 9998,
            1 <= today_m <= 12,
            1 <= today_d <= 31,
        ensures
            action_matches(
                r,
                spec_decision(
                    self.stop_loss_pct as int,
                    self.take_profit_pct as int,
                    self.min_exit_edge as int,
                    spec_is_weather_position(*pos, today_y as int, today_m as int, today_d as int),
                    pos.entry_price as int,
                    current_price as int,
                    pos.estimated_probability,
                ),
            ),
    {
        let is_weather = match &pos.question {
            Some(q) => {
                let qs = q.as_str();
                proof {
                    assert(qs.spec_bytes() == string_bytes(*q));
                }
                parse_weather_market(qs, today_y, today_m, today_d).is_some()
            },
            None => false,
        };
        if !is_weather {
            // Stop-loss: `(entry - current) / entry > stop_loss_pct`,
            // compared exactly by cross-multiplication.
            if pos.entry_price > 0 && crate::money::gt_product(
                pos.entry_price - current_price,
                SCALE,
                self.stop_loss_pct,
                pos.entry_price,
            ) {
                return PositionAction::Exit { reason: String::from_str("Stop-loss") };
            }
            // Take-profit: captured share of the maximum profit.
            if pos.entry_price < SCALE && crate::money::ge_product(
                current_price - pos.entry_price,
                SCALE,
                self.take_profit_pct,
                SCALE - pos.entry_price,
            ) {
                return PositionAction::Exit { reason: String::from_str("Take-profit") };
            }
        }
        match pos.estimated_probability {
            Some(e) => {
                let edge = if e - current_price >= 0 {
                    e - current_price
                } else {
                    current_price - e
                };
                if edge < self.min_exit_edge {
                    return PositionAction::Exit { reason: String::from_str("Edge decay") };
                }
            }
            None => {}
        }
        PositionAction::Hold
    }

    /// Volume spike: current volume exceeds the factor times the
    /// average.
    pub fn check_volume_spike(&self, current_volume: i64, avg_volume: i64) -> (r: bool)
        requires
            0 <= current_volume <= crate::money::MONEY_LIMIT,
            0 <= avg_volume <= crate::money::MONEY_LIMIT,
            0 <= self.volume_spike_factor <= 100_000_000,
        ensures
            r == (avg_volume > 0 && current_volume * SCALE > self.volume_spike_factor
                * avg_volume),
    {
        if avg_volume <= 0 {
            return false;
        }
        crate::money::gt_product(current_volume, SCALE, self.volume_spike_factor, avg_volume)
    }

    /// Whale monitoring: not yet wired to any data source.
    pub fn check_whale_activity(&self, market_condition_id: &str) -> (r: Vec<PositionAlert>)
        ensures
            r@.len() == 0,
    {
        let _ = market_condition_id;
        Vec::new()
    }

    /// Update the peak and compute the drawdown state: the breaker is
    /// active when `(peak - current) / peak` reaches the threshold.
    pub fn check_drawdown(db: &mut Database, current_bankroll: i64, threshold: i64) -> (r: Result<
        DrawdownState,
        LedgerError,
    >)
        requires
            old(db).wf(),
            -crate::ledger::BALANCE_LIMIT <= current_bankroll <= crate::ledger::BALANCE_LIMIT,
            0 <= threshold <= SCALE,
        ensures
            final(db).wf(),
            match r {
                Ok(state) => {
                    let peak = if old(db)@.peaks.len() == 0 || current_bankroll > spec_peak(
                        old(db)@,
                    ) {
                        current_bankroll as int
                    } else {
                        spec_peak(old(db)@)
                    };
                    &&& state.peak_bankroll == peak
                    &&& state.current_bankroll == current_bankroll
                    &&& state.drawdown_pct == (if peak > 0 {
                        let raw = (peak - current_bankroll) * SCALE / peak;
                        if raw > SCALE {
                            SCALE as int
                        } else {
                            raw
                        }
                    } else {
                        0
                    })
                    &&& state.is_circuit_breaker_active == (state.drawdown_pct >= threshold)
                },
                Err(_) => false,
            },
    {
        let peak = match db.update_peak_bankroll(current_bankroll) {
            Ok(p) => p,
            Err(_) => {
                proof {
                    assert(false);
                }
                return Err(LedgerError::AmountOutOfRange);
            }
        };
        let drawdown_pct: i64 = if peak > 0 {
            // The peak is at least the current bankroll, so the raw
            // drawdown is non-negative; it is capped at one.
            let diff = peak - current_bankroll;
            proof {
                crate::money::lemma_i64_product_fits(diff as int, SCALE as int);
            }
            let wide: i128 = (diff as i128) * (SCALE as i128);
            let q: i128 = wide / (peak as i128);
            proof {
                assert(wide == diff * SCALE);
                assert(q == diff * SCALE / (peak as int));
                assert(0 <= q) by (nonlinear_arith)
                    requires
                        q == diff * SCALE / (peak as int),
                        diff >= 0,
                        peak > 0,
                        SCALE > 0,
                ;
            }
            if q > SCALE as i128 {
                SCALE
            } else {
                q as i64
            }
        } else {
            0
        };
        Ok(
            DrawdownState {
                peak_bankroll: peak,
                current_bankroll,
                drawdown_pct,
                is_circuit_breaker_active: drawdown_pct >= threshold,
            },
        )
    }
}


impl PositionManager {
    /// Exposure of the given positions inside one city set.
    fn group_exposure_exec(
        &self,
        positions: &Vec<PositionRow>,
        cities: &Vec<String>,
        today_y: i64,
        today_m: i64,
        today_d: i64,
    ) -> (r: i64)
        requires
            rows_bounded(positions@),
            positions@.len() <= crate::ledger::TABLE_CAP,
            1 <= today_y <= 9998,
            1 <= today_m <= 12,
            1 <= today_d <= 31,
        ensures
            r == group_exposure(
                positions@,
                cities@,
                today_y as int,
                today_m as int,
                today_d as int,
            ),
            0 <= r <= positions@.len() * (crate::ledger::SIZE_LIMIT as int),
    {
        let ghost ps = positions@;
        let n = positions.len();
        let mut acc: i64 = 0;
        let mut i: usize = 0;
        proof {
            assert(ps.subrange(0, 0) =~= Seq::<PositionRow>::empty());
        }
        while i < n
            invariant
                0 <= i <= n,
                ps == positions@,
                n == ps.len() <= crate::ledger::TABLE_CAP,
                rows_bounded(ps),
                1 <= today_y <= 9998,
                1 <= today_m <= 12,
                1 <= today_d <= 31,
                acc == group_exposure(
                    ps.subrange(0, i as int),
                    cities@,
                    today_y as int,
                    today_m as int,
                    today_d as int,
                ),
                0 <= acc <= i * (crate::ledger::SIZE_LIMIT as int),
            decreases n - i,
        {
            proof {
                assert(ps.subrange(0, i + 1).drop_last() =~= ps.subrange(0, i as int));
                assert(ps.subrange(0, i + 1).last() == ps[i as int]);
            }
            let p = &positions[i];
            let in_group = self.position_in_cities(p, cities, today_y, today_m, today_d);
            if in_group {
                proof {
                    crate::money::lemma_mul_div_le(
                        p.entry_price as int,
                        SCALE as int,
                        p.size as int,
                    );
                    assert(p.entry_price * p.size == p.size * p.entry_price)
                        by (nonlinear_arith);
                }
                let term = mul_div_floor(p.entry_price, p.size, SCALE);
                acc = acc + term;
            }
            i += 1;
        }
        proof {
            assert(ps.subrange(0, n as int) =~= ps);
        }
        acc
    }

    /// Whether a position is a weather market of one of the cities.
    fn position_in_cities(
        &self,
        p: &PositionRow,
        cities: &Vec<String>,
        today_y: i64,
        today_m: i64,
        today_d: i64,
    ) -> (r: bool)
        requires
            1 <= today_y <= 9998,
            1 <= today_m <= 12,
            1 <= today_d <= 31,
        ensures
            r == in_cities(*p, cities@, today_y as int, today_m as int, today_d as int),
    {
        let q = match &p.question {
            Some(q) => q,
            None => {
                return false;
            }
        };
        let qs = q.as_str();
        proof {
            assert(qs.spec_bytes() == string_bytes(*q));
        }
        let info = match parse_weather_market(qs, today_y, today_m, today_d) {
            Some(info) => info,
            None => {
                return false;
            }
        };
        proof {
            assert(p.question == Some(*q));
            assert(spec_is_weather_position(
                *p,
                today_y as int,
                today_m as int,
                today_d as int,
            ));
        }
        let n = cities.len();
        let mut i: usize = 0;
        while i < n
            invariant
                0 <= i <= n,
                n == cities@.len(),
                p.question == Some(*q),
                spec_is_weather_position(*p, today_y as int, today_m as int, today_d as int),
                spec_city_of(string_bytes(*q)) == Some(info.city@),
                forall|j: int|
                    0 <= j < i ==> spec_city_of(string_bytes(*q)) != Some(
                        (#[trigger] cities@[j])@,
                    ),
            decreases n - i,
        {
            if info.city.eq(&cities[i]) {
                proof {
                    assert(spec_city_of(string_bytes(*q)) == Some((#[trigger] cities@[i as int])@));
                }
                return true;
            }
            i += 1;
        }
        false
    }

    /// Alerts for every correlation group whose exposure exceeds the
    /// cap (`max_correlated_exposure_pct` of the bankroll). An empty or
    /// negative bankroll raises no alerts.
    pub fn check_correlated_exposure(
        &self,
        positions: &Vec<PositionRow>,
        bankroll: i64,
        today_y: i64,
        today_m: i64,
        today_d: i64,
    ) -> (r: Vec<PositionAlert>)
        requires
            rows_bounded(positions@),
            positions@.len() <= crate::ledger::TABLE_CAP,
            0 <= self.max_correlated_exposure_pct <= SCALE,
            -crate::ledger::BALANCE_LIMIT <= bankroll <= crate::ledger::BALANCE_LIMIT,
            1 <= today_y <= 9998,
            1 <= today_m <= 12,
            1 <= today_d <= 31,
        ensures
            bankroll <= 0 ==> r@.len() == 0,
            bankroll > 0 ==> ({
                let cap = self.max_correlated_exposure_pct * bankroll / (SCALE as int);
                let over = over_group_indices(
                    self.groups_view(),
                    positions@,
                    cap,
                    today_y as int,
                    today_m as int,
                    today_d as int,
                    self.groups_view().len() as int,
                );
                &&& r@.len() == over.len()
                &&& forall|k: int|
                    0 <= k < r@.len() ==> (#[trigger] r@[k]).details@ == self.groups_view()[
                        over[k]
                    ].name@
            }),
            forall|k: int|
                0 <= k < r@.len() ==> (#[trigger] r@[k]).alert_type@ == "correlated_exposure"@
                    && r@[k].action_taken@ == "block_new_trades"@,
    {
        let mut out: Vec<PositionAlert> = Vec::new();
        if bankroll <= 0 {
            return out;
        }
        proof {
            crate::money::lemma_mul_div_le(
                self.max_correlated_exposure_pct as int,
                SCALE as int,
                bankroll as int,
            );
        }
        let cap = mul_div_floor(self.max_correlated_exposure_pct, bankroll, SCALE);
        let n = self.correlation_groups.len();
        let mut g: usize = 0;
        while g < n
            invariant
                0 <= g <= n,
                n == self.groups_view().len(),
                rows_bounded(positions@),
                positions@.len() <= crate::ledger::TABLE_CAP,
                1 <= today_y <= 9998,
                1 <= today_m <= 12,
                1 <= today_d <= 31,
                cap == self.max_correlated_exposure_pct * bankroll / (SCALE as int),
                out@.len() == over_group_indices(
                    self.groups_view(),
                    positions@,
                    cap as int,
                    today_y as int,
                    today_m as int,
                    today_d as int,
                    g as int,
                ).len(),
                forall|k: int|
                    0 <= k < out@.len() ==> (#[trigger] out@[k]).details@ == self.groups_view()[
                        over_group_indices(
                            self.groups_view(),
                            positions@,
                            cap as int,
                            today_y as int,
                            today_m as int,
                            today_d as int,
                            g as int,
                        )[k]
                    ].name@,
                forall|k: int|
                    0 <= k < out@.len() ==> (#[trigger] out@[k]).alert_type@
                        == "correlated_exposure"@ && out@[k].action_taken@
                        == "block_new_trades"@,
            decreases n - g,
        {
            let group = &self.correlation_groups[g];
            let exposure = self.group_exposure_exec(
                positions,
                &group.cities,
                today_y,
                today_m,
                today_d,
            );
            if exposure > cap {
                let mut mid = String::from_str("group:");
                mid.append(group.name.as_str());
                out.push(
                    PositionAlert {
                        market_condition_id: mid,
                        alert_type: String::from_str("correlated_exposure"),
                        details: group.name.clone(),
                        action_taken: String::from_str("block_new_trades"),
                    },
                );
            }
            g += 1;
        }
        out
    }

    /// Whether the question's city sits in a group whose exposure
    /// already meets or exceeds the cap; false for questions outside
    /// the weather grammar or cities outside every group.
    pub fn is_correlated_group_over_limit(
        &self,
        market_question: &str,
        positions: &Vec<PositionRow>,
        bankroll: i64,
        today_y: i64,
        today_m: i64,
        today_d: i64,
    ) -> (r: bool)
        requires
            rows_bounded(positions@),
            positions@.len() <= crate::ledger::TABLE_CAP,
            0 <= self.max_correlated_exposure_pct <= SCALE,
            -crate::ledger::BALANCE_LIMIT <= bankroll <= crate::ledger::BALANCE_LIMIT,
            1 <= today_y <= 9998,
            1 <= today_m <= 12,
            1 <= today_d <= 31,
        ensures
            bankroll <= 0 ==> r == false,
            bankroll > 0 ==> r == spec_group_over_limit(
                self.groups_view(),
                self.max_correlated_exposure_pct as int,
                market_question.spec_bytes(),
                positions@,
                bankroll as int,
                today_y as int,
                today_m as int,
                today_d as int,
            ),
    {
        if bankroll <= 0 {
            return false;
        }
        let info = match parse_weather_market(market_question, today_y, today_m, today_d) {
            Some(info) => info,
            None => {
                return false;
            }
        };
        proof {
            crate::money::lemma_mul_div_le(
                self.max_correlated_exposure_pct as int,
                SCALE as int,
                bankroll as int,
            );
        }
        let cap = mul_div_floor(self.max_correlated_exposure_pct, bankroll, SCALE);
        let n = self.correlation_groups.len();
        let mut g: usize = 0;
        while g < n
            invariant
                0 <= g <= n,
                n == self.groups_view().len(),
                rows_bounded(positions@),
                positions@.len() <= crate::ledger::TABLE_CAP,
                1 <= today_y <= 9998,
                1 <= today_m <= 12,
                1 <= today_d <= 31,
                bankroll > 0,
                spec_city_of(market_question.spec_bytes()) == Some(info.city@),
                spec_is_weather_question(market_question.spec_bytes()),
                valid_parsed_date(
                    spec_extract_date(
                        market_question.spec_bytes(),
                        today_y as int,
                        today_m as int,
                        today_d as int,
                    ),
                ),
                spec_temperature_range(market_question.spec_bytes()) is Some,
                cap == self.max_correlated_exposure_pct * bankroll / (SCALE as int),
                forall|gg: int|
                    0 <= gg < g ==> !((exists|c: int|
                        0 <= c < (#[trigger] self.groups_view()[gg]).cities@.len()
                            && spec_city_of(market_question.spec_bytes()) == Some(
                            (#[trigger] self.groups_view()[gg].cities@[c])@,
                        )) && group_exposure(
                        positions@,
                        self.groups_view()[gg].cities@,
                        today_y as int,
                        today_m as int,
                        today_d as int,
                    ) >= cap),
            decreases n - g,
        {
            let group = &self.correlation_groups[g];
            // Is the question's city in this group?
            let mut in_group = false;
            let cn = group.cities.len();
            let mut c: usize = 0;
            while c < cn
                invariant
                    0 <= c <= cn,
                    cn == group.cities@.len(),
                    spec_city_of(market_question.spec_bytes()) == Some(info.city@),
                    in_group == exists|cc: int|
                        0 <= cc < c && spec_city_of(market_question.spec_bytes()) == Some(
                            (#[trigger] group.cities@[cc])@,
                        ),
                decreases cn - c,
            {
                if info.city.eq(&group.cities[c]) {
                    in_group = true;
                }
                c += 1;
            }
            if in_group {
                let exposure = self.group_exposure_exec(
                    positions,
                    &group.cities,
                    today_y,
                    today_m,
                    today_d,
                );
                if exposure >= cap {
                    return true;
                }
            }
            g += 1;
        }
        false
    }

    /// Whether total weather exposure meets or exceeds its cap.
    pub fn is_total_weather_over_limit(
        &self,
        positions: &Vec<PositionRow>,
        bankroll: i64,
        today_y: i64,
        today_m: i64,
        today_d: i64,
    ) -> (r: bool)
        requires
            rows_bounded(positions@),
            positions@.len() <= crate::ledger::TABLE_CAP,
            0 <= self.max_total_weather_exposure_pct <= SCALE,
            -crate::ledger::BALANCE_LIMIT <= bankroll <= crate::ledger::BALANCE_LIMIT,
            1 <= today_y <= 9998,
            1 <= today_m <= 12,
            1 <= today_d <= 31,
        ensures
            bankroll <= 0 ==> r == false,
            bankroll > 0 ==> r == (weather_exposure(
                positions@,
                today_y as int,
                today_m as int,
                today_d as int,
            ) >= self.max_total_weather_exposure_pct * bankroll / (SCALE as int)),
    {
        if bankroll <= 0 {
            return false;
        }
        proof {
            crate::money::lemma_mul_div_le(
                self.max_total_weather_exposure_pct as int,
                SCALE as int,
                bankroll as int,
            );
        }
        let cap = mul_div_floor(self.max_total_weather_exposure_pct, bankroll, SCALE);
        let ghost ps = positions@;
        let n = positions.len();
        let mut acc: i64 = 0;
        let mut i: usize = 0;
        proof {
            assert(ps.subrange(0, 0) =~= Seq::<PositionRow>::empty());
        }
        while i < n
            invariant
                0 <= i <= n,
                ps == positions@,
                n == ps.len() <= crate::ledger::TABLE_CAP,
                rows_bounded(ps),
                1 <= today_y <= 9998,
                1 <= today_m <= 12,
                1 <= today_d <= 31,
                acc == weather_exposure(
                    ps.subrange(0, i as int),
                    today_y as int,
                    today_m as int,
                    today_d as int,
                ),
                0 <= acc <= i * (crate::ledger::SIZE_LIMIT as int),
            decreases n - i,
        {
            proof {
                assert(ps.subrange(0, i + 1).drop_last() =~= ps.subrange(0, i as int));
                assert(ps.subrange(0, i + 1).last() == ps[i as int]);
            }
            let p = &positions[i];
            let is_weather = match &p.question {
                Some(q) => {
                    let qs = q.as_str();
                    proof {
                        assert(qs.spec_bytes() == string_bytes(*q));
                    }
                    parse_weather_market(qs, today_y, today_m, today_d).is_some()
                },
                None => false,
            };
            if is_weather {
                proof {
                    crate::money::lemma_mul_div_le(
                        p.entry_price as int,
                        SCALE as int,
                        p.size as int,
                    );
                    assert(p.entry_price * p.size == p.size * p.entry_price)
                        by (nonlinear_arith);
                }
                let term = mul_div_floor(p.entry_price, p.size, SCALE);
                acc = acc + term;
            }
            i += 1;
        }
        proof {
            assert(ps.subrange(0, n as int) =~= ps);
        }
        acc >= cap
    }
}


impl PositionManager {
    /// One step of the per-cycle sweep, for one open position whose
    /// quote was just fetched: write the fresh price and the implied
    /// unrealized P&L, store a fresh weather estimate when one came,
    /// decide hold or exit, and log an alert for an exit. Returns the
    /// exit reason when the position should be closed; the caller
    /// places the exit order.
    pub fn apply_position_check(
        &self,
        db: &mut Database,
        pos: &PositionRow,
        current_price: i64,
        fresh_estimate: Option<i64>,
        cycle_number: i64,
        today_y: i64,
        today_m: i64,
        today_d: i64,
    ) -> (r: Result<Option<String>, LedgerError>)
        requires
            old(db).wf(),
            0 <= pos.entry_price <= SCALE,
            0 <= current_price <= SCALE,
            (match pos.estimated_probability {
                Some(e) => 0 <= e <= SCALE,
                None => true,
            }),
            (match fresh_estimate {
                Some(e) => 0 <= e <= SCALE,
                None => true,
            }),
            0 <= self.stop_loss_pct <= SCALE,
            0 <= self.take_profit_pct <= SCALE,
            0 <= self.min_exit_edge <= SCALE,
            1 <= today_y <= 9998,
            1 <= today_m <= 12,
            1 <= today_d <= 31,
        ensures
            final(db).wf(),
            final(db)@ == (LedgerView {
                positions: final(db)@.positions,
                alerts: final(db)@.alerts,
                ..old(db)@
            }),
            ({
                let ps = old(db)@.positions;
                let k = crate::ledger::find_open_slot(ps, pos.market_condition_id@, pos.side@, 0);
                &&& final(db)@.positions.len() == ps.len()
                &&& (forall|i: int|
                    0 <= i < ps.len() ==> {
                        let p = ps[i];
                        let q = #[trigger] final(db)@.positions[i];
                        let with_est = fresh_estimate is Some && crate::ledger::is_open(p)
                            && p.market_condition_id@ == pos.market_condition_id@;
                        &&& q == (PositionRow {
                            current_price: if i == k {
                                Some(current_price)
                            } else {
                                p.current_price
                            },
                            unrealized_pnl: q.unrealized_pnl,
                            estimated_probability: if with_est {
                                fresh_estimate
                            } else {
                                p.estimated_probability
                            },
                            ..p
                        })
                        &&& q.unrealized_pnl == (if i == k {
                            crate::ledger::pnl_of(
                                p.entry_price as int,
                                current_price as int,
                                p.size as int,
                            )
                        } else {
                            p.unrealized_pnl as int
                        })
                    })
            }),
            ({
                let est = match fresh_estimate {
                    Some(e) => Some(e),
                    None => pos.estimated_probability,
                };
                let d = spec_decision(
                    self.stop_loss_pct as int,
                    self.take_profit_pct as int,
                    self.min_exit_edge as int,
                    spec_is_weather_position(
                        *pos,
                        today_y as int,
                        today_m as int,
                        today_d as int,
                    ),
                    pos.entry_price as int,
                    current_price as int,
                    est,
                );
                &&& (r is Err <==> !(d is Hold) && old(db)@.alerts.len()
                    >= crate::ledger::TABLE_CAP)
                &&& match r {
                    Ok(decision) => match decision {
                        Some(reason) => {
                            &&& !(d is Hold)
                            &&& (d is ExitStopLoss ==> reason@ == "Stop-loss"@)
                            &&& (d is ExitTakeProfit ==> reason@ == "Take-profit"@)
                            &&& (d is ExitEdgeDecay ==> reason@ == "Edge decay"@)
                            &&& final(db)@.alerts.len() == old(db)@.alerts.len() + 1
                            &&& (forall|i: int|
                                0 <= i < old(db)@.alerts.len() ==> final(db)@.alerts[i] == old(
                                    db,
                                )@.alerts[i])
                            &&& final(db)@.alerts.last().market_condition_id@
                                == pos.market_condition_id@
                            &&& final(db)@.alerts.last().alert_type@ == "exit"@
                            &&& final(db)@.alerts.last().details@ == reason@
                            &&& final(db)@.alerts.last().action_taken@ == "exit_triggered"@
                            &&& final(db)@.alerts.last().cycle_number == cycle_number
                        },
                        None => {
                            &&& d is Hold
                            &&& final(db)@.alerts == old(db)@.alerts
                        },
                    },
                    Err(e) => {
                        &&& e == LedgerError::CapacityExceeded
                        &&& final(db)@.alerts == old(db)@.alerts
                    },
                }
            }),
    {
        // Refresh the stored price and unrealized P&L.
        let res = db.update_position_price(
            pos.market_condition_id.as_str(),
            pos.side.as_str(),
            current_price,
        );
        match res {
            Ok(()) => {}
            Err(_) => {
                proof {
                    assert(false);
                }
                return Err(LedgerError::CapacityExceeded);
            }
        }
        let ghost va = db@;
        // Store the fresh weather estimate, when one came.
        let effective = match fresh_estimate {
            Some(e) => {
                let res2 = db.update_position_estimate(pos.market_condition_id.as_str(), e);
                match res2 {
                    Ok(()) => {}
                    Err(_) => {
                        proof {
                            assert(false);
                        }
                        return Err(LedgerError::CapacityExceeded);
                    }
                }
                Some(e)
            }
            None => pos.estimated_probability,
        };
        proof {
            let v0 = old(db)@;
            let vb = db@;
            let ps = v0.positions;
            let k = crate::ledger::find_open_slot(ps, pos.market_condition_id@, pos.side@, 0);
            assert forall|i: int| 0 <= i < ps.len() implies {
                let p = ps[i];
                let q = #[trigger] vb.positions[i];
                let with_est = fresh_estimate is Some && crate::ledger::is_open(p)
                    && p.market_condition_id@ == pos.market_condition_id@;
                &&& q == (PositionRow {
                    current_price: if i == k {
                        Some(current_price)
                    } else {
                        p.current_price
                    },
                    unrealized_pnl: q.unrealized_pnl,
                    estimated_probability: if with_est {
                        fresh_estimate
                    } else {
                        p.estimated_probability
                    },
                    ..p
                })
                &&& q.unrealized_pnl == (if i == k {
                    crate::ledger::pnl_of(
                        p.entry_price as int,
                        current_price as int,
                        p.size as int,
                    )
                } else {
                    p.unrealized_pnl as int
                })
            } by {
                let p = ps[i];
                let mid = va.positions[i];
                assert(crate::ledger::is_open(mid) == crate::ledger::is_open(p));
                assert(mid.market_condition_id@ == p.market_condition_id@);
            }
        }
        let probe = PositionRow {
            market_condition_id: pos.market_condition_id.clone(),
            token_id: pos.token_id.clone(),
            side: pos.side.clone(),
            entry_price: pos.entry_price,
            size: pos.size,
            status: pos.status.clone(),
            current_price: Some(current_price),
            unrealized_pnl: pos.unrealized_pnl,
            realized_pnl: pos.realized_pnl,
            estimated_probability: effective,
            question: clone_opt_string_pm(&pos.question),
        };
        let action = self.evaluate_position(&probe, current_price, today_y, today_m, today_d);
        match action {
            PositionAction::Hold => Ok(None),
            PositionAction::Exit { reason } => {
                let logged = db.log_position_alert(
                    pos.market_condition_id.as_str(),
                    "exit",
                    reason.as_str(),
                    "exit_triggered",
                    cycle_number,
                );
                match logged {
                    Ok(()) => Ok(Some(reason)),
                    Err(e) => Err(e),
                }
            }
            PositionAction::ReAnalyze { reason } => {
                // The decision spec never asks for a re-analysis.
                proof {
                    assert(false);
                }
                let logged = db.log_position_alert(
                    pos.market_condition_id.as_str(),
                    "re_analyze",
                    reason.as_str(),
                    "logged",
                    cycle_number,
                );
                match logged {
                    Ok(()) => Ok(None),
                    Err(e) => Err(e),
                }
            }
        }
    }
}

/// Clone an optional string, keeping its value.
fn clone_opt_string_pm(o: &Option<String>) -> (r: Option<String>)
    ensures
        r == *o,
{
    match o {
        Some(s) => Some(s.clone()),
        None => None,
    }
}

} // verus!


