use polymarket_agent::ledger::{Database, PositionRow};
use polymarket_agent::position_manager::{PositionAction, PositionManager};

const TY: i64 = 2026;
const TM: i64 = 2;
const TD: i64 = 12;

fn make_manager() -> PositionManager {
    PositionManager::new(150_000, 900_000, 20_000, 3_000_000, 5_000_000_000, 100_000, 250_000)
}

fn make_position(entry_price: i64, size: i64) -> PositionRow {
    PositionRow {
        market_condition_id: "0xtest".to_string(),
        token_id: "tok_yes".to_string(),
        side: "YES".to_string(),
        entry_price,
        size,
        status: "open".to_string(),
        current_price: None,
        unrealized_pnl: 0,
        realized_pnl: 0,
        estimated_probability: None,
        question: None,
    }
}

fn city_name(city: &str) -> &str {
    match city {
        "NYC" => "New York City",
        "PHL" => "Philadelphia",
        "BOS" => "Boston",
        "CHI" => "Chicago",
        "MIA" => "Miami",
        other => other,
    }
}

fn make_weather_position(city: &str, entry_price: i64, size: i64) -> PositionRow {
    PositionRow {
        market_condition_id: format!("0x{}", city.to_lowercase()),
        token_id: format!("tok_{}", city.to_lowercase()),
        side: "YES".to_string(),
        entry_price,
        size,
        status: "open".to_string(),
        current_price: None,
        unrealized_pnl: 0,
        realized_pnl: 0,
        estimated_probability: None,
        question: Some(format!(
            "Will the high temperature in {} on February 20, 2026 be between 40\u{00b0}F and 42\u{00b0}F?",
            city_name(city)
        )),
    }
}

#[test]
fn test_stop_loss_triggered() {
    let mgr = make_manager();
    let pos = make_position(600_000, 10_000_000);
    let action = mgr.evaluate_position(&pos, 500_000, TY, TM, TD);
    assert!(matches!(action, PositionAction::Exit { .. }));
    if let PositionAction::Exit { reason } = action {
        assert!(reason.contains("Stop-loss"));
    }
}

#[test]
fn test_stop_loss_not_triggered() {
    let mgr = make_manager();
    let pos = make_position(600_000, 10_000_000);
    let action = mgr.evaluate_position(&pos, 550_000, TY, TM, TD);
    assert_eq!(action, PositionAction::Hold);
}

#[test]
fn test_stop_loss_exact_threshold() {
    let mgr = make_manager();
    let pos = make_position(1_000_000, 10_000_000);
    // A 14.9% loss stays below the 15% threshold.
    let action = mgr.evaluate_position(&pos, 851_000, TY, TM, TD);
    assert_eq!(action, PositionAction::Hold);
}

#[test]
fn test_stop_loss_just_over_threshold() {
    let mgr = make_manager();
    let pos = make_position(1_000_000, 10_000_000);
    let action = mgr.evaluate_position(&pos, 849_000, TY, TM, TD);
    assert!(matches!(action, PositionAction::Exit { .. }));
}

#[test]
fn test_take_profit_triggered() {
    let mgr = make_manager();
    let pos = make_position(500_000, 10_000_000);
    // At 0.96 the captured share is 92% of the maximum.
    let action = mgr.evaluate_position(&pos, 960_000, TY, TM, TD);
    assert!(matches!(action, PositionAction::Exit { .. }));
    if let PositionAction::Exit { reason } = action {
        assert!(reason.contains("Take-profit"));
    }
}

#[test]
fn test_take_profit_not_triggered() {
    let mgr = make_manager();
    let pos = make_position(500_000, 10_000_000);
    let action = mgr.evaluate_position(&pos, 900_000, TY, TM, TD);
    assert_eq!(action, PositionAction::Hold);
}

#[test]
fn test_take_profit_at_exact_threshold() {
    let mgr = make_manager();
    let pos = make_position(500_000, 10_000_000);
    let action = mgr.evaluate_position(&pos, 951_000, TY, TM, TD);
    if let PositionAction::Exit { reason } = action {
        assert!(reason.contains("Take-profit"));
    } else {
        panic!("Expected Exit, got {:?}", action);
    }
}

#[test]
fn test_edge_decay_triggered() {
    let mgr = make_manager();
    let mut pos = make_position(500_000, 10_000_000);
    pos.estimated_probability = Some(750_000);
    let action = mgr.evaluate_position(&pos, 740_000, TY, TM, TD);
    assert!(matches!(action, PositionAction::Exit { .. }));
    if let PositionAction::Exit { reason } = action {
        assert!(reason.contains("Edge decay"));
    }
}

#[test]
fn test_edge_decay_not_triggered() {
    let mgr = make_manager();
    let mut pos = make_position(500_000, 10_000_000);
    pos.estimated_probability = Some(750_000);
    let action = mgr.evaluate_position(&pos, 600_000, TY, TM, TD);
    assert_eq!(action, PositionAction::Hold);
}

#[test]
fn test_edge_decay_skipped_without_estimate() {
    let mgr = make_manager();
    let pos = make_position(500_000, 10_000_000);
    let action = mgr.evaluate_position(&pos, 510_000, TY, TM, TD);
    assert_eq!(action, PositionAction::Hold);
}

#[test]
fn test_weather_market_no_stop_loss() {
    let mgr = make_manager();
    let mut pos = make_weather_position("NYC", 36_000, 80_000_000);
    pos.estimated_probability = Some(750_000);
    // The price fell 67%, which would stop a non-weather position out;
    // weather positions are held to resolution.
    let action = mgr.evaluate_position(&pos, 12_000, TY, TM, TD);
    assert_eq!(action, PositionAction::Hold);
}

#[test]
fn test_weather_market_no_take_profit() {
    let mgr = make_manager();
    let mut pos = make_weather_position("NYC", 36_000, 80_000_000);
    pos.estimated_probability = Some(750_000);
    let action = mgr.evaluate_position(&pos, 950_000, TY, TM, TD);
    assert_eq!(action, PositionAction::Hold);
}

#[test]
fn test_weather_market_still_exits_on_edge_decay() {
    let mgr = make_manager();
    let mut pos = make_weather_position("NYC", 36_000, 80_000_000);
    pos.estimated_probability = Some(40_000);
    let action = mgr.evaluate_position(&pos, 35_000, TY, TM, TD);
    assert!(matches!(action, PositionAction::Exit { .. }));
    if let PositionAction::Exit { reason } = action {
        assert!(reason.contains("Edge decay"));
    }
}

#[test]
fn test_stop_loss_priority_over_edge_decay() {
    let mgr = make_manager();
    let mut pos = make_position(600_000, 10_000_000);
    pos.estimated_probability = Some(750_000);
    let action = mgr.evaluate_position(&pos, 400_000, TY, TM, TD);
    if let PositionAction::Exit { reason } = action {
        assert!(reason.contains("Stop-loss"));
    } else {
        panic!("Expected exit action");
    }
}

#[test]
fn test_volume_spike_detected() {
    let mgr = make_manager();
    assert!(mgr.check_volume_spike(9_000_000_000, 2_500_000_000));
}

#[test]
fn test_volume_spike_not_detected() {
    let mgr = make_manager();
    assert!(!mgr.check_volume_spike(5_000_000_000, 2_500_000_000));
}

#[test]
fn test_volume_spike_zero_average() {
    let mgr = make_manager();
    assert!(!mgr.check_volume_spike(5_000_000_000, 0));
}

#[test]
fn test_whale_monitoring_stub_empty() {
    let mgr = make_manager();
    let alerts = mgr.check_whale_activity("0xtest");
    assert!(alerts.is_empty());
}

#[test]
fn test_correlated_exposure_within_limit() {
    let mgr = make_manager();
    let positions = vec![make_weather_position("NYC", 500_000, 5_000_000)];
    let alerts = mgr.check_correlated_exposure(&positions, 100_000_000, TY, TM, TD);
    assert!(alerts.is_empty());
}

#[test]
fn test_correlated_exposure_exceeds_limit() {
    let mgr = make_manager();
    let positions = vec![
        make_weather_position("NYC", 500_000, 12_000_000),
        make_weather_position("PHL", 500_000, 12_000_000),
    ];
    // Northeast exposure 12.0 over the 10.0 limit.
    let alerts = mgr.check_correlated_exposure(&positions, 100_000_000, TY, TM, TD);
    assert_eq!(alerts.len(), 1);
    assert!(alerts[0].details.contains("Northeast"));
}

#[test]
fn test_correlated_exposure_different_groups() {
    let mgr = make_manager();
    let positions = vec![
        make_weather_position("NYC", 500_000, 10_000_000),
        make_weather_position("CHI", 500_000, 10_000_000),
    ];
    let alerts = mgr.check_correlated_exposure(&positions, 100_000_000, TY, TM, TD);
    assert!(alerts.is_empty());
}

#[test]
fn test_is_correlated_group_over_limit() {
    let mgr = make_manager();
    let positions = vec![
        make_weather_position("NYC", 500_000, 12_000_000),
        make_weather_position("BOS", 500_000, 12_000_000),
    ];
    let question = "Will the high temperature in Philadelphia on February 20, 2026 be between 40\u{00b0}F and 42\u{00b0}F?";
    assert!(mgr.is_correlated_group_over_limit(question, &positions, 100_000_000, TY, TM, TD));
}

#[test]
fn test_is_correlated_group_not_over_limit() {
    let mgr = make_manager();
    let positions = vec![make_weather_position("NYC", 500_000, 5_000_000)];
    let question = "Will the high temperature in Philadelphia on February 20, 2026 be between 40\u{00b0}F and 42\u{00b0}F?";
    assert!(!mgr.is_correlated_group_over_limit(question, &positions, 100_000_000, TY, TM, TD));
}

#[test]
fn test_total_weather_exposure_within_limit() {
    let mgr = make_manager();
    let positions = vec![
        make_weather_position("NYC", 30_000, 100_000_000),
        make_weather_position("CHI", 30_000, 100_000_000),
    ];
    assert!(!mgr.is_total_weather_over_limit(&positions, 100_000_000, TY, TM, TD));
}

#[test]
fn test_total_weather_exposure_exceeds_limit() {
    let mgr = make_manager();
    let positions = vec![
        make_weather_position("NYC", 500_000, 30_000_000),
        make_weather_position("CHI", 500_000, 30_000_000),
    ];
    assert!(mgr.is_total_weather_over_limit(&positions, 100_000_000, TY, TM, TD));
}

#[test]
fn test_non_weather_market_not_blocked() {
    let mgr = make_manager();
    let positions = vec![make_weather_position("NYC", 500_000, 100_000_000)];
    let question = "Will Bitcoin reach $100k?";
    assert!(!mgr.is_correlated_group_over_limit(question, &positions, 100_000_000, TY, TM, TD));
}

#[test]
fn test_drawdown_inactive() {
    let mut db = Database::open_in_memory();
    db.update_peak_bankroll(100_000_000).unwrap();
    let state = PositionManager::check_drawdown(&mut db, 80_000_000, 300_000).unwrap();
    assert!(!state.is_circuit_breaker_active);
    assert_eq!(state.drawdown_pct, 200_000);
}

#[test]
fn test_drawdown_active() {
    let mut db = Database::open_in_memory();
    db.update_peak_bankroll(100_000_000).unwrap();
    let state = PositionManager::check_drawdown(&mut db, 65_000_000, 300_000).unwrap();
    assert!(state.is_circuit_breaker_active);
    assert_eq!(state.drawdown_pct, 350_000);
}

#[test]
fn test_drawdown_at_exact_threshold() {
    let mut db = Database::open_in_memory();
    db.update_peak_bankroll(100_000_000).unwrap();
    let state = PositionManager::check_drawdown(&mut db, 70_000_000, 300_000).unwrap();
    assert!(state.is_circuit_breaker_active);
}

#[test]
fn test_drawdown_new_peak() {
    let mut db = Database::open_in_memory();
    let state = PositionManager::check_drawdown(&mut db, 100_000_000, 300_000).unwrap();
    assert_eq!(state.peak_bankroll, 100_000_000);
    assert_eq!(state.drawdown_pct, 0);
    assert!(!state.is_circuit_breaker_active);
    let state = PositionManager::check_drawdown(&mut db, 120_000_000, 300_000).unwrap();
    assert_eq!(state.peak_bankroll, 120_000_000);
}
