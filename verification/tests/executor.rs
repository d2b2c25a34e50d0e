use polymarket_agent::config::TradingMode;
use polymarket_agent::edge_detector::{EdgeOpportunity, TradeSide};
use polymarket_agent::executor::{Executor, TradeIntent};
use polymarket_agent::ledger::{Database, MarketRow};
use polymarket_agent::position_sizer::SizingResult;

fn make_intent(side: TradeSide, market_id: &str) -> TradeIntent {
    TradeIntent {
        opportunity: EdgeOpportunity {
            market_id: market_id.to_string(),
            question: "Test market?".to_string(),
            side,
            estimated_probability: 750_000,
            market_price: 550_000,
            edge: 200_000,
            net_edge: 200_000,
            confidence: 850_000,
            data_quality: "high".to_string(),
            reasoning: "Test".to_string(),
            analysis_cost: 10_000,
        },
        token_id: "tok_yes_1".to_string(),
        sizing: SizingResult {
            raw_kelly: 444_400,
            adjusted_kelly: 222_200,
            position_usd: 3_000_000,
            shares: 5_450_000,
            limit_price: 550_000,
            reject_reason: None,
        },
    }
}

fn setup_test_db(market_id: &str) -> Database {
    let mut db = Database::open_in_memory();
    db.upsert_market(&MarketRow {
        condition_id: market_id.to_string(),
        question: "Test market?".to_string(),
        slug: None,
        yes_token_id: None,
        no_token_id: None,
        volume: 0,
        liquidity: 0,
        end_date: None,
        active: true,
    })
    .unwrap();
    db.ensure_bankroll_seeded(50_000_000).unwrap();
    db
}

#[test]
fn test_paper_mode_logs_trade() {
    let mut db = setup_test_db("0xpaper1");
    let executor = Executor::new(TradingMode::Paper, 0);
    let intent = make_intent(TradeSide::Yes, "0xpaper1");
    let result = executor.execute_paper(&mut db, &intent, 0, false).unwrap();
    assert!(result.paper);
    assert_eq!(result.status, "filled");
    assert_eq!(result.market_condition_id, "0xpaper1");
    assert_eq!(result.price, 550_000);
}

#[test]
fn test_paper_mode_updates_position() {
    let mut db = setup_test_db("0xpaper2");
    let executor = Executor::new(TradingMode::Paper, 0);
    let intent = make_intent(TradeSide::Yes, "0xpaper2");
    executor.execute_paper(&mut db, &intent, 0, false).unwrap();
    let positions = db.get_open_positions();
    assert_eq!(positions.len(), 1);
    assert_eq!(positions[0].size, 5_450_000);
}

#[test]
fn test_paper_mode_updates_bankroll() {
    let mut db = setup_test_db("0xpaper3");
    let executor = Executor::new(TradingMode::Paper, 0);
    let intent = make_intent(TradeSide::Yes, "0xpaper3");
    executor.execute_paper(&mut db, &intent, 0, false).unwrap();
    // 50.0 - 3.0 = 47.0
    assert_eq!(db.get_current_bankroll(), 47_000_000);
}

#[test]
fn test_paper_fee_logged_separately() {
    let mut db = setup_test_db("0xfee");
    // Two percent entry fee on a three-dollar ticket.
    let executor = Executor::new(TradingMode::Paper, 20_000);
    let intent = make_intent(TradeSide::Yes, "0xfee");
    executor.execute_paper(&mut db, &intent, 0, false).unwrap();
    assert_eq!(db.get_current_bankroll(), 50_000_000 - 3_000_000 - 60_000);
    assert_eq!(db.get_total_trading_fees(), 60_000);
}

#[test]
fn test_paper_no_side_trade() {
    let mut db = setup_test_db("0xno1");
    let executor = Executor::new(TradingMode::Paper, 0);
    let mut intent = make_intent(TradeSide::No, "0xno1");
    intent.sizing.limit_price = 450_000;
    intent.token_id = "tok_no_1".to_string();
    let result = executor.execute_paper(&mut db, &intent, 0, false).unwrap();
    assert_eq!(result.side, TradeSide::No);
    assert_eq!(result.price, 450_000);
}

fn make_position(market_id: &str, entry_price: i64, size: i64) -> polymarket_agent::ledger::PositionRow {
    polymarket_agent::ledger::PositionRow {
        market_condition_id: market_id.to_string(),
        token_id: "tok_yes_1".to_string(),
        side: "YES".to_string(),
        entry_price,
        size,
        status: "open".to_string(),
        current_price: None,
        unrealized_pnl: 0,
        realized_pnl: 0,
        estimated_probability: None,
        question: None,
    }
}

#[test]
fn test_paper_exit_credits_bankroll() {
    let mut db = setup_test_db("0xexit1");
    let executor = Executor::new(TradingMode::Paper, 0);
    let intent = make_intent(TradeSide::Yes, "0xexit1");
    executor.execute_paper(&mut db, &intent, 0, false).unwrap();
    assert_eq!(db.get_current_bankroll(), 47_000_000);
    let position = make_position("0xexit1", 550_000, 5_450_000);
    let pnl = executor.exit_paper(&mut db, &position, 700_000, 0, false).unwrap();
    // pnl = (0.70 - 0.55) * 5.45 = 0.8175
    assert_eq!(pnl, 817_500);
    // 47.0 + 0.70 * 5.45 = 50.815
    assert_eq!(db.get_current_bankroll(), 50_815_000);
}

#[test]
fn test_paper_exit_closes_position() {
    let mut db = setup_test_db("0xexit2");
    let executor = Executor::new(TradingMode::Paper, 0);
    let intent = make_intent(TradeSide::Yes, "0xexit2");
    executor.execute_paper(&mut db, &intent, 0, false).unwrap();
    assert_eq!(db.get_open_positions().len(), 1);
    let position = make_position("0xexit2", 550_000, 5_450_000);
    executor.exit_paper(&mut db, &position, 650_000, 0, false).unwrap();
    assert!(db.get_open_positions().is_empty());
}

#[test]
fn test_paper_exit_logs_trade() {
    let mut db = setup_test_db("0xexit3");
    let executor = Executor::new(TradingMode::Paper, 0);
    let intent = make_intent(TradeSide::Yes, "0xexit3");
    executor.execute_paper(&mut db, &intent, 0, false).unwrap();
    let position = make_position("0xexit3", 550_000, 5_450_000);
    executor.exit_paper(&mut db, &position, 700_000, 0, false).unwrap();
    let trades = db.get_recent_trades(10);
    assert_eq!(trades.len(), 2);
    assert!(trades[0].side.contains("SELL"));
}

#[test]
fn test_live_execution_recorded_under_order_id() {
    let mut db = setup_test_db("0xlive1");
    let executor = Executor::new(TradingMode::Live, 0);
    let intent = make_intent(TradeSide::Yes, "0xlive1");
    let result = executor
        .record_live_execution(&mut db, &intent, "order-123".to_string(), "live".to_string(), 0, false)
        .unwrap();
    assert!(!result.paper);
    assert_eq!(result.trade_id, "order-123");
    assert_eq!(result.status, "live");
    assert_eq!(db.get_current_bankroll(), 47_000_000);
}

#[test]
fn test_live_exit_recorded_under_order_id() {
    let mut db = setup_test_db("0xlive2");
    let executor = Executor::new(TradingMode::Live, 0);
    let intent = make_intent(TradeSide::Yes, "0xlive2");
    executor
        .record_live_execution(&mut db, &intent, "order-124".to_string(), "live".to_string(), 0, false)
        .unwrap();
    let position = make_position("0xlive2", 550_000, 5_450_000);
    let pnl = executor
        .record_live_exit(&mut db, &position, 700_000, "order-125".to_string(), "live".to_string(), 0, false)
        .unwrap();
    assert_eq!(pnl, 817_500);
    let trades = db.get_recent_trades(1);
    assert_eq!(trades[0].trade_id, "order-125");
}

#[test]
fn test_paper_exit_trade_row_fields() {
    let mut db = setup_test_db("0xexit4");
    let executor = Executor::new(TradingMode::Paper, 0);
    let intent = make_intent(TradeSide::Yes, "0xexit4");
    executor.execute_paper(&mut db, &intent, 0, false).unwrap();
    let position = make_position("0xexit4", 550_000, 5_450_000);
    executor.exit_paper(&mut db, &position, 700_000, 0, false).unwrap();
    let trades = db.get_recent_trades(1);
    assert_eq!(trades[0].market_condition_id, "0xexit4");
    assert_eq!(trades[0].side, "SELL_YES");
    assert_eq!(trades[0].price, 700_000);
    assert_eq!(trades[0].size, 5_450_000);
    assert_eq!(trades[0].status, "filled");
    assert!(trades[0].paper);
}
