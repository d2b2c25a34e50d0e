use polymarket_agent::accounting::Accountant;
use polymarket_agent::ledger::{Database, EntryKind, MarketRow};

fn setup_db_with_bankroll(amount: i64) -> Database {
    let mut db = Database::open_in_memory();
    db.ensure_bankroll_seeded(amount).unwrap();
    db
}

fn insert_test_market(db: &mut Database, condition_id: &str) {
    db.upsert_market(&MarketRow {
        condition_id: condition_id.to_string(),
        question: format!("Test market {}", condition_id),
        slug: None,
        yes_token_id: None,
        no_token_id: None,
        volume: 0,
        liquidity: 0,
        end_date: None,
        active: true,
    })
    .unwrap();
}

#[test]
fn test_api_cost_deduction() {
    let mut db = setup_db_with_bankroll(50_000_000);
    db.log_api_cost(1, None, "haiku", 500, 50, 100_000, "triage", 0).unwrap();
    let accountant = Accountant::new(200_000_000);
    let result = accountant.close_cycle(&mut db, 1).unwrap();
    assert_eq!(result.bankroll_before, 50_000_000);
    assert_eq!(result.api_cost, 100_000);
    assert_eq!(result.bankroll_after, 49_900_000);
    assert!(result.is_alive);
}

#[test]
fn test_survival_bankroll_positive() {
    let mut db = setup_db_with_bankroll(10_000_000);
    db.log_api_cost(1, None, "haiku", 500, 50, 10_000, "triage", 0).unwrap();
    let accountant = Accountant::new(200_000_000);
    let result = accountant.close_cycle(&mut db, 1).unwrap();
    assert!(result.is_alive);
    assert!(result.bankroll_after > 0);
}

#[test]
fn test_survival_bankroll_zero() {
    let mut db = setup_db_with_bankroll(500_000);
    db.log_api_cost(1, None, "sonnet", 2000, 200, 500_000, "analysis", 0).unwrap();
    let accountant = Accountant::new(200_000_000);
    let result = accountant.close_cycle(&mut db, 1).unwrap();
    assert!(!result.is_alive);
    assert_eq!(result.bankroll_after, 0);
    let report = accountant.generate_death_report(&db);
    assert_eq!(report.cause, "Bankroll depleted to zero");
}

#[test]
fn test_survival_bankroll_negative() {
    let mut db = setup_db_with_bankroll(100_000);
    db.log_api_cost(1, None, "sonnet", 2000, 200, 500_000, "analysis", 0).unwrap();
    let accountant = Accountant::new(200_000_000);
    let result = accountant.close_cycle(&mut db, 1).unwrap();
    assert!(!result.is_alive);
    assert!(result.bankroll_after < 0);
}

#[test]
fn test_cycle_duration_high_bankroll() {
    let accountant = Accountant::new(200_000_000);
    assert_eq!(accountant.get_cycle_duration_secs(500_000_000, 600, 1800), 600);
    // Exactly at the threshold still picks the short cycle.
    assert_eq!(accountant.get_cycle_duration_secs(200_000_000, 600, 1800), 600);
}

#[test]
fn test_cycle_duration_low_bankroll() {
    let accountant = Accountant::new(200_000_000);
    assert_eq!(accountant.get_cycle_duration_secs(199_990_000, 600, 1800), 1800);
    assert_eq!(accountant.get_cycle_duration_secs(50_000_000, 600, 1800), 1800);
    assert_eq!(accountant.get_cycle_duration_secs(10_000, 600, 1800), 1800);
}

#[test]
fn test_death_report_generation() {
    let mut db = setup_db_with_bankroll(50_000_000);
    insert_test_market(&mut db, "0xdead");
    db.log_cycle_summary(1, 10, 0, 1, 0, 50_000_000, 50_000_000).unwrap();
    db.insert_trade("t1", "0xdead", "tok1", "YES", 600_000, 5_000_000, "filled", true, 0).unwrap();
    let before = db.get_current_bankroll();
    db.log_bankroll_entry(EntryKind::ApiCost, -50_000, before - 50_000, "Cycle 1 API cost".to_string(), 0, false)
        .unwrap();
    let accountant = Accountant::new(200_000_000);
    let report = accountant.generate_death_report(&db);
    assert_eq!(report.cycles_completed, 1);
    assert_eq!(report.total_trades, 1);
    assert_eq!(report.final_bankroll, 49_950_000);
    assert_eq!(report.total_pnl, -50_000);
    assert_eq!(report.recent_trades.len(), 1);
    assert_eq!(report.recent_trades[0].trade_id, "t1");
}

#[test]
fn test_close_cycle_no_double_deduction() {
    let mut db = setup_db_with_bankroll(50_000_000);
    db.log_api_cost(1, None, "haiku", 500, 50, 100_000, "triage", 0).unwrap();
    let accountant = Accountant::new(200_000_000);
    let result1 = accountant.close_cycle(&mut db, 1).unwrap();
    assert_eq!(result1.bankroll_after, 49_900_000);
    // A second close of the same cycle deducts again: the caller
    // contract is one close per cycle.
    let result2 = accountant.close_cycle(&mut db, 1).unwrap();
    assert_eq!(result2.bankroll_before, 49_900_000);
    assert_eq!(result2.bankroll_after, 49_800_000);
}

#[test]
fn test_close_cycle_zero_cost() {
    let mut db = setup_db_with_bankroll(50_000_000);
    let accountant = Accountant::new(200_000_000);
    let result = accountant.close_cycle(&mut db, 1).unwrap();
    assert_eq!(result.bankroll_before, 50_000_000);
    assert_eq!(result.bankroll_after, 50_000_000);
    assert_eq!(result.api_cost, 0);
    assert!(result.is_alive);
    // No bankroll entry is appended for a zero cost: the balance chain
    // still ends at the seed.
    assert_eq!(db.get_current_bankroll(), 50_000_000);
    assert_eq!(db.get_total_trading_fees(), 0);
}

#[test]
fn test_api_cost_debit_row() {
    let mut db = setup_db_with_bankroll(50_000_000);
    db.log_api_cost(1, None, "haiku", 500, 50, 100_000, "triage", 0).unwrap();
    let accountant = Accountant::new(200_000_000);
    accountant.close_cycle(&mut db, 1).unwrap();
    let entry = db.last_bankroll_entry().unwrap();
    assert_eq!(entry.entry_type, EntryKind::ApiCost);
    assert_eq!(entry.amount, -100_000);
    assert_eq!(entry.balance_after, 49_900_000);
    assert_eq!(entry.description, "Cycle 1 API cost");
}
