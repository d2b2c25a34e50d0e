use polymarket_agent::edge_detector::{EdgeDetector, TradeSide};
use polymarket_agent::estimator::{AnalysisResult, FairValueEstimate};

fn make_analysis(est_prob: i64, market_price: i64, confidence: i64) -> AnalysisResult {
    AnalysisResult {
        market_id: "0xtest".to_string(),
        question: "Test market?".to_string(),
        estimate: FairValueEstimate {
            probability: est_prob,
            confidence,
            reasoning: "Test reasoning".to_string(),
            data_quality: "high".to_string(),
        },
        market_yes_price: market_price,
        total_cost: 10_000,
        api_calls: vec![],
    }
}

#[test]
fn test_detect_yes_edge_above_threshold() {
    let detector = EdgeDetector::new(80_000, 20_000);
    let analysis = make_analysis(750_000, 550_000, 850_000);
    let opp = detector.detect(&analysis).unwrap();
    assert_eq!(opp.side, TradeSide::Yes);
    assert_eq!(opp.edge, 200_000);
    assert_eq!(opp.net_edge, 160_000);
}

#[test]
fn test_detect_no_edge_above_threshold() {
    let detector = EdgeDetector::new(80_000, 20_000);
    let analysis = make_analysis(300_000, 550_000, 850_000);
    let opp = detector.detect(&analysis).unwrap();
    assert_eq!(opp.side, TradeSide::No);
    assert_eq!(opp.edge, 250_000);
    assert_eq!(opp.net_edge, 210_000);
}

#[test]
fn test_detect_below_threshold() {
    let detector = EdgeDetector::new(80_000, 20_000);
    let analysis = make_analysis(600_000, 550_000, 850_000);
    assert!(detector.detect(&analysis).is_none());
}

#[test]
fn test_detect_low_confidence() {
    let detector = EdgeDetector::new(80_000, 20_000);
    let analysis = make_analysis(750_000, 550_000, 300_000);
    assert!(detector.detect(&analysis).is_none());
}

#[test]
fn test_detect_edge_at_exact_threshold() {
    // With zero fees, an edge exactly at the threshold passes.
    let detector = EdgeDetector::new(80_000, 0);
    let analysis = make_analysis(680_000, 600_000, 850_000);
    assert!(detector.detect(&analysis).is_some());
}

#[test]
fn test_fees_can_eliminate_edge() {
    let detector = EdgeDetector::new(80_000, 50_000);
    let analysis = make_analysis(650_000, 550_000, 850_000);
    assert!(detector.detect(&analysis).is_none());
}

#[test]
fn test_detect_batch_sorts_by_net_edge() {
    let detector = EdgeDetector::new(80_000, 20_000);
    let analyses = vec![
        make_analysis(650_000, 550_000, 850_000),
        make_analysis(800_000, 550_000, 850_000),
        make_analysis(700_000, 550_000, 850_000),
    ];
    let opps = detector.detect_batch(&analyses);
    assert_eq!(opps.len(), 2);
    assert_eq!(opps[0].net_edge, 210_000);
    assert_eq!(opps[1].net_edge, 110_000);
}

#[test]
fn test_detect_batch_empty() {
    let detector = EdgeDetector::new(80_000, 20_000);
    let opps = detector.detect_batch(&vec![]);
    assert!(opps.is_empty());
}

#[test]
fn test_detect_echoes_analysis_fields() {
    let detector = EdgeDetector::new(80_000, 20_000);
    let analysis = make_analysis(750_000, 550_000, 850_000);
    let opp = detector.detect(&analysis).unwrap();
    assert_eq!(opp.market_id, "0xtest");
    assert_eq!(opp.question, "Test market?");
    assert_eq!(opp.estimated_probability, 750_000);
    assert_eq!(opp.market_price, 550_000);
    assert_eq!(opp.confidence, 850_000);
    assert_eq!(opp.data_quality, "high");
    assert_eq!(opp.reasoning, "Test reasoning");
    assert_eq!(opp.analysis_cost, 10_000);
}

#[test]
fn test_detect_batch_keeps_every_passing_analysis() {
    let detector = EdgeDetector::new(80_000, 20_000);
    let analyses = vec![
        make_analysis(750_000, 550_000, 850_000),
        make_analysis(560_000, 550_000, 850_000),
        make_analysis(300_000, 550_000, 850_000),
    ];
    let opps = detector.detect_batch(&analyses);
    assert_eq!(opps.len(), 2);
    assert_eq!(opps[0].net_edge, 210_000);
    assert_eq!(opps[1].net_edge, 160_000);
}
