use polymarket_agent::edge_detector::{EdgeOpportunity, TradeSide};
use polymarket_agent::position_sizer::PositionSizer;

fn make_opportunity(side: TradeSide, estimated_prob: i64, market_price: i64, edge: i64) -> EdgeOpportunity {
    EdgeOpportunity {
        market_id: "0xtest".to_string(),
        question: "Test market?".to_string(),
        side,
        estimated_probability: estimated_prob,
        market_price,
        edge,
        net_edge: edge,
        confidence: 850_000,
        data_quality: "high".to_string(),
        reasoning: "Test reasoning".to_string(),
        analysis_cost: 10_000,
    }
}

#[test]
fn test_positive_edge_yes_side() {
    let sizer = PositionSizer::new(500_000, 60_000, 400_000);
    // est=0.75, market=0.55: kelly = 0.20/0.45, position capped at 6% of 50.
    let opp = make_opportunity(TradeSide::Yes, 750_000, 550_000, 200_000);
    let result = sizer.size_position(&opp, 50_000_000, 0);
    assert!(!result.is_rejected());
    assert_eq!(result.raw_kelly, 444_444);
    assert_eq!(result.adjusted_kelly, 222_222);
    assert_eq!(result.position_usd, 3_000_000);
    assert_eq!(result.limit_price, 550_000);
    assert!(result.shares > 0);
}

#[test]
fn test_positive_edge_no_side() {
    let sizer = PositionSizer::new(500_000, 60_000, 400_000);
    // est=0.30, market=0.55: buy NO at 0.45, win 0.70, kelly = 0.25/0.55.
    let opp = make_opportunity(TradeSide::No, 300_000, 550_000, 250_000);
    let result = sizer.size_position(&opp, 50_000_000, 0);
    assert!(!result.is_rejected());
    assert_eq!(result.raw_kelly, 454_545);
    assert_eq!(result.limit_price, 450_000);
}

#[test]
fn test_negative_kelly_rejected() {
    let sizer = PositionSizer::new(500_000, 60_000, 400_000);
    let opp = make_opportunity(TradeSide::Yes, 500_000, 550_000, 0);
    let result = sizer.size_position(&opp, 50_000_000, 0);
    assert!(result.is_rejected());
    assert!(result.reject_reason.unwrap().contains("negative Kelly"));
}

#[test]
fn test_half_kelly_applied() {
    let sizer = PositionSizer::new(500_000, 1_000_000, 1_000_000);
    let opp = make_opportunity(TradeSide::Yes, 800_000, 500_000, 300_000);
    // kelly = 0.30/0.50 = 0.60, adjusted 0.30, position 30.00.
    let result = sizer.size_position(&opp, 100_000_000, 0);
    assert!(!result.is_rejected());
    assert_eq!(result.raw_kelly, 600_000);
    assert_eq!(result.adjusted_kelly, 300_000);
    assert_eq!(result.position_usd, 30_000_000);
}

#[test]
fn test_position_capped_by_max_pct() {
    let sizer = PositionSizer::new(1_000_000, 60_000, 1_000_000);
    let opp = make_opportunity(TradeSide::Yes, 950_000, 500_000, 450_000);
    // kelly 0.90, position min(90, 6, 100) = 6.
    let result = sizer.size_position(&opp, 100_000_000, 0);
    assert!(!result.is_rejected());
    assert_eq!(result.position_usd, 6_000_000);
}

#[test]
fn test_exposure_limit_constrains_position() {
    let sizer = PositionSizer::new(500_000, 60_000, 400_000);
    // max exposure 20, current 19.5, remaining 0.5 < $1.
    let opp = make_opportunity(TradeSide::Yes, 750_000, 550_000, 200_000);
    let result = sizer.size_position(&opp, 50_000_000, 19_500_000);
    assert!(result.is_rejected());
    assert!(result.reject_reason.unwrap().contains("too small"));
}

#[test]
fn test_exposure_limit_partially_constrains() {
    let sizer = PositionSizer::new(500_000, 60_000, 400_000);
    // remaining = 20 - 18 = 2; kelly wants 3.
    let opp = make_opportunity(TradeSide::Yes, 750_000, 550_000, 200_000);
    let result = sizer.size_position(&opp, 50_000_000, 18_000_000);
    assert!(!result.is_rejected());
    assert_eq!(result.position_usd, 2_000_000);
}

#[test]
fn test_min_trade_size_rejected() {
    let sizer = PositionSizer::new(500_000, 60_000, 400_000);
    // bankroll 5: cap 0.30 < $1.
    let opp = make_opportunity(TradeSide::Yes, 750_000, 550_000, 200_000);
    let result = sizer.size_position(&opp, 5_000_000, 0);
    assert!(result.is_rejected());
    assert!(result.reject_reason.unwrap().contains("too small"));
}

#[test]
fn test_shares_calculation() {
    let sizer = PositionSizer::new(500_000, 1_000_000, 1_000_000);
    let opp = make_opportunity(TradeSide::Yes, 800_000, 500_000, 300_000);
    // position 30.00 at 0.50: 60 shares.
    let result = sizer.size_position(&opp, 100_000_000, 0);
    assert_eq!(result.shares, 60_000_000);
}

#[test]
fn test_zero_bankroll_rejects() {
    let sizer = PositionSizer::new(500_000, 60_000, 400_000);
    let opp = make_opportunity(TradeSide::Yes, 750_000, 550_000, 200_000);
    let result = sizer.size_position(&opp, 0, 0);
    assert!(result.is_rejected());
}

#[test]
fn test_all_caps_zero_rejects() {
    // With every cap at zero, every call rejects.
    let sizer = PositionSizer::new(0, 0, 0);
    let opp = make_opportunity(TradeSide::Yes, 750_000, 550_000, 200_000);
    let result = sizer.size_position(&opp, 50_000_000, 0);
    assert!(result.is_rejected());
}

#[test]
fn test_exact_exposure_cap_rejects() {
    // At exactly the exposure cap, remaining is zero: reject.
    let sizer = PositionSizer::new(500_000, 60_000, 400_000);
    let opp = make_opportunity(TradeSide::Yes, 750_000, 550_000, 200_000);
    let result = sizer.size_position(&opp, 50_000_000, 20_000_000);
    assert!(result.is_rejected());
    assert!(result.reject_reason.unwrap().contains("exposure limit"));
}

#[test]
fn test_time_based_sizing() {
    let sizer = PositionSizer::new(500_000, 1_000_000, 1_000_000);
    let opp = make_opportunity(TradeSide::Yes, 800_000, 500_000, 300_000);
    // Adjusted 0.30 of 100: 30; scaled by the time multiplier.
    let r2 = sizer.size_position_with_time(&opp, 100_000_000, 0, Some(2));
    assert!(!r2.is_rejected());
    assert_eq!(r2.position_usd, 30_000_000);
    let r3 = sizer.size_position_with_time(&opp, 100_000_000, 0, Some(3));
    assert!(!r3.is_rejected());
    assert_eq!(r3.position_usd, 21_000_000);
    let r6 = sizer.size_position_with_time(&opp, 100_000_000, 0, Some(6));
    assert!(!r6.is_rejected());
    assert_eq!(r6.position_usd, 12_000_000);
    let r10 = sizer.size_position_with_time(&opp, 100_000_000, 0, Some(10));
    assert!(!r10.is_rejected());
    assert_eq!(r10.position_usd, 6_000_000);
    let rn = sizer.size_position_with_time(&opp, 100_000_000, 0, None);
    assert!(!rn.is_rejected());
    assert_eq!(rn.position_usd, 30_000_000);
}
