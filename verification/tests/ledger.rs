use polymarket_agent::ledger::{Database, EntryKind, MarketRow};

fn insert_test_market(db: &mut Database, condition_id: &str) {
    db.upsert_market(&MarketRow {
        condition_id: condition_id.to_string(),
        question: format!("Test market {}", condition_id),
        slug: None,
        yes_token_id: None,
        no_token_id: None,
        volume: 0,
        liquidity: 0,
        end_date: None,
        active: true,
    })
    .unwrap();
}

#[test]
fn test_insert_trade() {
    let mut db = Database::open_in_memory();
    insert_test_market(&mut db, "0xcond1");
    db.insert_trade("trade_1", "0xcond1", "tok_yes_1", "YES", 650_000, 10_000_000, "filled", true, 0)
        .unwrap();
    let trades = db.get_recent_trades(1);
    assert_eq!(trades.len(), 1);
    assert_eq!(trades[0].side, "YES");
    assert_eq!(trades[0].price, 650_000);
    assert_eq!(trades[0].size, 10_000_000);
}

#[test]
fn test_upsert_position_new() {
    let mut db = Database::open_in_memory();
    insert_test_market(&mut db, "0xcond1");
    db.upsert_position("0xcond1", "tok_yes_1", "YES", 600_000, 5_000_000).unwrap();
    let positions = db.get_open_positions();
    assert_eq!(positions.len(), 1);
    assert_eq!(positions[0].market_condition_id, "0xcond1");
    assert_eq!(positions[0].entry_price, 600_000);
    assert_eq!(positions[0].size, 5_000_000);
}

#[test]
fn test_upsert_position_aggregate() {
    let mut db = Database::open_in_memory();
    insert_test_market(&mut db, "0xcond1");
    db.upsert_position("0xcond1", "tok_yes_1", "YES", 600_000, 10_000_000).unwrap();
    db.upsert_position("0xcond1", "tok_yes_1", "YES", 700_000, 10_000_000).unwrap();
    let positions = db.get_open_positions();
    assert_eq!(positions.len(), 1);
    // avg price = (0.60*10 + 0.70*10) / 20 = 0.65
    assert_eq!(positions[0].entry_price, 650_000);
    assert_eq!(positions[0].size, 20_000_000);
}

#[test]
fn test_bankroll_entry_and_retrieval() {
    let mut db = Database::open_in_memory();
    db.log_bankroll_entry(EntryKind::Seed, 50_000_000, 50_000_000, "Initial seed".to_string(), 0, false)
        .unwrap();
    assert_eq!(db.get_current_bankroll(), 50_000_000);
    db.log_bankroll_entry(EntryKind::Trade, -3_250_000, 46_750_000, "Bought YES".to_string(), 0, false)
        .unwrap();
    assert_eq!(db.get_current_bankroll(), 46_750_000);
}

#[test]
fn test_get_current_bankroll_empty() {
    let db = Database::open_in_memory();
    assert_eq!(db.get_current_bankroll(), 0);
}

#[test]
fn test_get_total_exposure() {
    let mut db = Database::open_in_memory();
    insert_test_market(&mut db, "0xcond1");
    insert_test_market(&mut db, "0xcond2");
    db.upsert_position("0xcond1", "tok1", "YES", 600_000, 10_000_000).unwrap();
    db.upsert_position("0xcond2", "tok2", "NO", 400_000, 5_000_000).unwrap();
    // exposure = 0.60*10 + 0.40*5 = 8.0
    assert_eq!(db.get_total_exposure(), 8_000_000);
}

#[test]
fn test_get_total_exposure_empty() {
    let db = Database::open_in_memory();
    assert_eq!(db.get_total_exposure(), 0);
}

#[test]
fn test_ensure_bankroll_seeded_once() {
    let mut db = Database::open_in_memory();
    db.ensure_bankroll_seeded(50_000_000).unwrap();
    assert_eq!(db.get_current_bankroll(), 50_000_000);
    // Second call is idempotent: still exactly one entry.
    db.ensure_bankroll_seeded(50_000_000).unwrap();
    assert_eq!(db.get_current_bankroll(), 50_000_000);
    assert_eq!(db.get_total_trading_fees(), 0);
    let report_trades = db.get_recent_trades(10);
    assert!(report_trades.is_empty());
    db.log_bankroll_entry(EntryKind::Trade, -1_000_000, 49_000_000, "t".to_string(), 0, false)
        .unwrap();
    assert_eq!(db.get_current_bankroll(), 49_000_000);
}

#[test]
fn test_get_open_positions_excludes_closed() {
    let mut db = Database::open_in_memory();
    insert_test_market(&mut db, "0xcond1");
    db.upsert_position("0xcond1", "tok1", "YES", 600_000, 10_000_000).unwrap();
    db.close_position("0xcond1", "YES", 600_000).unwrap();
    let positions = db.get_open_positions();
    assert!(positions.is_empty());
}

#[test]
fn test_get_next_cycle_number_empty() {
    let db = Database::open_in_memory();
    assert_eq!(db.get_next_cycle_number(), 1);
}

#[test]
fn test_get_next_cycle_number_populated() {
    let mut db = Database::open_in_memory();
    db.log_cycle_summary(1, 10, 0, 0, 0, 0, 0).unwrap();
    db.log_cycle_summary(2, 15, 0, 1, 0, 0, 0).unwrap();
    assert_eq!(db.get_next_cycle_number(), 3);
}

#[test]
fn test_get_recent_trades() {
    let mut db = Database::open_in_memory();
    insert_test_market(&mut db, "0xcond1");
    db.insert_trade("t1", "0xcond1", "tok1", "YES", 600_000, 5_000_000, "filled", true, 0).unwrap();
    db.insert_trade("t2", "0xcond1", "tok1", "NO", 400_000, 3_000_000, "filled", true, 0).unwrap();
    db.insert_trade("t3", "0xcond1", "tok1", "YES", 700_000, 2_000_000, "filled", true, 0).unwrap();
    let trades = db.get_recent_trades(2);
    assert_eq!(trades.len(), 2);
    // Most recent first.
    assert_eq!(trades[0].trade_id, "t3");
    assert_eq!(trades[1].trade_id, "t2");
}

#[test]
fn test_get_total_trades_count() {
    let mut db = Database::open_in_memory();
    assert_eq!(db.get_total_trades_count(), 0);
    insert_test_market(&mut db, "0xcond1");
    db.insert_trade("t1", "0xcond1", "tok1", "YES", 600_000, 5_000_000, "filled", true, 0).unwrap();
    assert_eq!(db.get_total_trades_count(), 1);
}

#[test]
fn test_peak_bankroll_tracking() {
    let mut db = Database::open_in_memory();
    let peak = db.update_peak_bankroll(50_000_000).unwrap();
    assert_eq!(peak, 50_000_000);
    let peak = db.update_peak_bankroll(75_000_000).unwrap();
    assert_eq!(peak, 75_000_000);
    // A lower value does not update the peak.
    let peak = db.update_peak_bankroll(60_000_000).unwrap();
    assert_eq!(peak, 75_000_000);
    assert_eq!(db.get_peak_bankroll(), 75_000_000);
}

#[test]
fn test_peak_bankroll_empty() {
    let db = Database::open_in_memory();
    assert_eq!(db.get_peak_bankroll(), 0);
}

#[test]
fn test_update_position_price() {
    let mut db = Database::open_in_memory();
    insert_test_market(&mut db, "0xcond1");
    db.upsert_position("0xcond1", "tok1", "YES", 600_000, 10_000_000).unwrap();
    db.update_position_price("0xcond1", "YES", 750_000).unwrap();
    let positions = db.get_open_positions();
    assert_eq!(positions.len(), 1);
    assert_eq!(positions[0].current_price, Some(750_000));
    // pnl = (0.75 - 0.60) * 10 = 1.50
    assert_eq!(positions[0].unrealized_pnl, 1_500_000);
}

#[test]
fn test_close_position() {
    let mut db = Database::open_in_memory();
    insert_test_market(&mut db, "0xcond1");
    db.upsert_position("0xcond1", "tok1", "YES", 600_000, 10_000_000).unwrap();
    let pnl = db.close_position("0xcond1", "YES", 800_000).unwrap();
    // pnl = (0.80 - 0.60) * 10 = 2.0
    assert_eq!(pnl, 2_000_000);
    assert!(db.get_open_positions().is_empty());
}

#[test]
fn test_get_open_positions_with_market() {
    let mut db = Database::open_in_memory();
    insert_test_market(&mut db, "0xcond1");
    db.upsert_position("0xcond1", "tok1", "YES", 600_000, 10_000_000).unwrap();
    let positions = db.get_open_positions_with_market();
    assert_eq!(positions.len(), 1);
    assert!(positions[0].question.is_some());
    assert!(positions[0].question.as_ref().unwrap().contains("0xcond1"));
}

#[test]
fn test_log_position_alert() {
    let mut db = Database::open_in_memory();
    db.log_position_alert("0xcond1", "stop_loss", "Price dropped 20%", "exit", 5).unwrap();
}

#[test]
fn test_upsert_position_with_estimate() {
    let mut db = Database::open_in_memory();
    insert_test_market(&mut db, "0xcond1");
    db.upsert_position_with_estimate("0xcond1", "tok1", "YES", 600_000, 10_000_000, Some(750_000))
        .unwrap();
    let positions = db.get_open_positions();
    assert_eq!(positions.len(), 1);
    assert_eq!(positions[0].estimated_probability, Some(750_000));
}

#[test]
fn test_log_and_get_api_cost() {
    let mut db = Database::open_in_memory();
    db.log_api_cost(1, Some("0xabc"), "haiku-4-5-20251001", 500, 50, 750, "triage", 0).unwrap();
    db.log_api_cost(1, Some("0xabc"), "sonnet-4-5-20250929", 2000, 200, 9_000, "analysis", 0)
        .unwrap();
    assert_eq!(db.get_cycle_api_cost(1), 9_750);
}

#[test]
fn test_get_cycle_api_cost_empty() {
    let db = Database::open_in_memory();
    assert_eq!(db.get_cycle_api_cost(99), 0);
}

#[test]
fn test_get_api_cost_since() {
    let mut db = Database::open_in_memory();
    db.log_api_cost(1, None, "haiku-4-5-20251001", 500, 50, 1_000, "triage", 100).unwrap();
    assert!(db.get_api_cost_since(50) > 0);
    assert_eq!(db.get_api_cost_since(200), 0);
}

#[test]
fn test_has_open_position() {
    let mut db = Database::open_in_memory();
    insert_test_market(&mut db, "0xcond1");
    assert!(!db.has_open_position("0xcond1"));
    db.upsert_position("0xcond1", "tok1", "YES", 600_000, 10_000_000).unwrap();
    assert!(db.has_open_position("0xcond1"));
    db.close_position("0xcond1", "YES", 700_000).unwrap();
    assert!(!db.has_open_position("0xcond1"));
}

#[test]
fn test_update_position_estimate() {
    let mut db = Database::open_in_memory();
    insert_test_market(&mut db, "0xcond1");
    db.upsert_position_with_estimate("0xcond1", "tok1", "YES", 600_000, 10_000_000, Some(750_000))
        .unwrap();
    db.update_position_estimate("0xcond1", 820_000).unwrap();
    let positions = db.get_open_positions();
    assert_eq!(positions.len(), 1);
    assert_eq!(positions[0].estimated_probability, Some(820_000));
}

#[test]
fn test_get_weather_losses_today() {
    let mut db = Database::open_in_memory();
    assert_eq!(db.get_weather_losses_today(0), 0);
    // A weather-tagged loss counts.
    db.log_bankroll_entry(
        EntryKind::Trade,
        -2_500_000,
        -2_500_000,
        "Paper loss: NYC high temperature 34-35F".to_string(),
        0,
        true,
    )
    .unwrap();
    assert_eq!(db.get_weather_losses_today(0), 2_500_000);
    // A loss without the weather tag does not.
    db.log_bankroll_entry(
        EntryKind::Trade,
        -1_000_000,
        -3_500_000,
        "Paper loss: other market".to_string(),
        0,
        false,
    )
    .unwrap();
    assert_eq!(db.get_weather_losses_today(0), 2_500_000);
}

#[test]
fn test_bankroll_chain_holds() {
    // Every row's balance is the previous balance plus its amount.
    let mut db = Database::open_in_memory();
    db.ensure_bankroll_seeded(50_000_000).unwrap();
    db.log_bankroll_entry(EntryKind::Trade, -3_000_000, 47_000_000, "a".to_string(), 0, false).unwrap();
    db.log_bankroll_entry(EntryKind::Exit, 4_000_000, 51_000_000, "b".to_string(), 0, false).unwrap();
    assert_eq!(db.get_current_bankroll(), 51_000_000);
    // A mis-chained balance is refused by contract: computing it from
    // the current balance is the only way to call the logger.
    let before = db.get_current_bankroll();
    db.log_bankroll_entry(EntryKind::Trade, -1_000_000, before - 1_000_000, "c".to_string(), 0, false)
        .unwrap();
    assert_eq!(db.get_current_bankroll(), 50_000_000);
}

#[test]
fn test_pending_opportunity_blocks_cycle_close() {
    // A cycle cannot close while one of its opportunities is pending.
    let mut db = Database::open_in_memory();
    db.insert_opportunity(1, "0xc", "Q?", "YES", 550_000, 750_000, 200_000, 850_000, "pending", None)
        .unwrap();
    assert!(db.log_cycle_summary(1, 0, 0, 0, 0, 0, 0).is_err());
    db.update_opportunity_status(1, "0xc", "executed", None).unwrap();
    db.log_cycle_summary(1, 0, 0, 0, 0, 0, 0).unwrap();
    assert_eq!(db.get_next_cycle_number(), 2);
}

#[test]
fn test_insert_weather_actual_coalesces() {
    let mut db = Database::open_in_memory();
    db.insert_weather_actual("NYC", "2026-02-11", Some(41_000_000), None, Some(40_500_000), None, None, None)
        .unwrap();
    // A later write for the same (city, date) fills gaps and keeps the rest.
    db.insert_weather_actual("NYC", "2026-02-11", None, Some(42_000_000), None, None, None, None)
        .unwrap();
    let rows = db.get_weather_actuals("NYC", 10);
    assert_eq!(rows.len(), 1);
    assert_eq!(rows[0].wu_actual_high, Some(41_000_000));
    assert_eq!(rows[0].nws_forecast_high, Some(42_000_000));
    assert_eq!(rows[0].ensemble_mean, Some(40_500_000));
}

#[test]
fn test_get_recent_opportunities_newest_first() {
    let mut db = Database::open_in_memory();
    db.insert_opportunity(1, "0xa", "A?", "YES", 550_000, 750_000, 200_000, 850_000, "executed", None)
        .unwrap();
    db.insert_opportunity(1, "0xb", "B?", "NO", 450_000, 300_000, 150_000, 800_000, "rejected", Some("too small"))
        .unwrap();
    let recent = db.get_recent_opportunities(1);
    assert_eq!(recent.len(), 1);
    assert_eq!(recent[0].condition_id, "0xb");
}
