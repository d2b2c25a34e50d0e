use polymarket_agent::accounting::Accountant;
use polymarket_agent::controller::{
    effective_kelly, find_token_id, finish_cycle, gate_opportunity, sleep_seconds, GateOutcome,
};
use polymarket_agent::edge_detector::TradeSide;
use polymarket_agent::ledger::Database;
use polymarket_agent::scanner::{GammaMarket, Token};

fn market_with_tokens(cid: &str) -> GammaMarket {
    GammaMarket {
        id: "1".to_string(),
        question: "Q?".to_string(),
        slug: None,
        condition_id: Some(cid.to_string()),
        tokens: vec![
            Token { token_id: "tok_yes".to_string(), outcome: "Yes".to_string(), price: Some(650_000) },
            Token { token_id: "tok_no".to_string(), outcome: "No".to_string(), price: Some(350_000) },
        ],
        volume: Some(5_000_000_000),
        liquidity: Some(2_000_000_000),
        end_date: None,
        closed: false,
        active: true,
        tags: vec![],
    }
}

#[test]
fn test_find_token_id_by_side() {
    let markets = vec![market_with_tokens("0xa"), market_with_tokens("0xb")];
    assert_eq!(find_token_id(&markets, "0xb", TradeSide::Yes), Some("tok_yes".to_string()));
    assert_eq!(find_token_id(&markets, "0xb", TradeSide::No), Some("tok_no".to_string()));
    assert_eq!(find_token_id(&markets, "0xc", TradeSide::Yes), None);
}

#[test]
fn test_gate_order() {
    assert_eq!(gate_opportunity(true, true, true, false, false, false), GateOutcome::SkipDailyLossLimit);
    assert_eq!(gate_opportunity(false, true, false, false, false, false), GateOutcome::SkipNoTokenId);
    assert_eq!(gate_opportunity(true, false, true, true, false, false), GateOutcome::SkipAlreadyPositioned);
    assert_eq!(gate_opportunity(false, false, true, false, true, false), GateOutcome::SkipCorrelationLimit);
    assert_eq!(gate_opportunity(true, false, true, false, false, true), GateOutcome::SkipWeatherExposureLimit);
    assert_eq!(gate_opportunity(false, false, true, false, false, true), GateOutcome::Proceed);
    assert_eq!(gate_opportunity(false, false, true, false, false, false), GateOutcome::Proceed);
}

#[test]
fn test_effective_kelly_reduction() {
    assert_eq!(effective_kelly(500_000, false, 500_000), 500_000);
    assert_eq!(effective_kelly(500_000, true, 500_000), 250_000);
    assert_eq!(effective_kelly(500_000, true, 0), 0);
}

#[test]
fn test_finish_cycle_writes_summary() {
    let mut db = Database::open_in_memory();
    db.ensure_bankroll_seeded(50_000_000).unwrap();
    db.log_api_cost(1, None, "haiku", 500, 50, 100_000, "triage", 0).unwrap();
    let accountant = Accountant::new(200_000_000);
    let acct = finish_cycle(&mut db, &accountant, 1, 10, 4, 2).unwrap();
    assert_eq!(acct.bankroll_before, 50_000_000);
    assert_eq!(acct.bankroll_after, 49_900_000);
    assert!(acct.is_alive);
    assert_eq!(db.get_next_cycle_number(), 2);
    // The summary row carries exactly the cycle's summed API cost.
    assert_eq!(db.get_cycle_api_cost(1), 100_000);
}

#[test]
fn test_sleep_seconds_floors_at_zero() {
    assert_eq!(sleep_seconds(600, 30), 570);
    assert_eq!(sleep_seconds(600, 600), 0);
    assert_eq!(sleep_seconds(600, 700), 0);
}
