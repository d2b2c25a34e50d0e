use polymarket_agent::estimator::render_weather_block;
use polymarket_agent::weather::{BucketProbability, WeatherProbabilities};
use polymarket_agent::estimator::{
    budget_allows_analysis, budget_allows_triage, parse_estimate, triage_decision, EstimateError,
    ModelPricing, TriageDecision,
};

#[test]
fn test_model_pricing_haiku() {
    let pricing = ModelPricing::for_model("haiku-4-5-20251001");
    assert_eq!(pricing.input_per_mtok, 1);
    assert_eq!(pricing.output_per_mtok, 5);
    // (500/1M)*1.0 + (50/1M)*5.0 dollars = 750 micro-dollars
    assert_eq!(pricing.calculate_cost(500, 50), 750);
}

#[test]
fn test_model_pricing_sonnet() {
    let pricing = ModelPricing::for_model("sonnet-4-5-20250929");
    assert_eq!(pricing.input_per_mtok, 3);
    assert_eq!(pricing.output_per_mtok, 15);
}

#[test]
fn test_model_pricing_opus() {
    let pricing = ModelPricing::for_model("opus-x");
    assert_eq!(pricing.input_per_mtok, 15);
    assert_eq!(pricing.output_per_mtok, 75);
}

#[test]
fn test_model_pricing_unknown_defaults() {
    let pricing = ModelPricing::for_model("some-unknown-model");
    assert_eq!(pricing.input_per_mtok, 3);
    assert_eq!(pricing.output_per_mtok, 15);
}

#[test]
fn test_parse_estimate_valid_json() {
    let text = r#"{"probability": 0.72, "confidence": 0.85, "reasoning": "Test reasoning", "data_quality": "high"}"#;
    let estimate = parse_estimate(text).unwrap();
    assert_eq!(estimate.probability, 720_000);
    assert_eq!(estimate.confidence, 850_000);
    assert_eq!(estimate.reasoning, "Test reasoning");
    assert_eq!(estimate.data_quality, "high");
}

#[test]
fn test_parse_estimate_fenced_json() {
    let text = "```json\n{\"probability\": 0.60, \"confidence\": 0.70, \"reasoning\": \"Fenced test\", \"data_quality\": \"medium\"}\n```";
    let estimate = parse_estimate(text).unwrap();
    assert_eq!(estimate.probability, 600_000);
    assert_eq!(estimate.confidence, 700_000);
    assert_eq!(estimate.data_quality, "medium");
}

#[test]
fn test_parse_estimate_invalid_probability() {
    let text = r#"{"probability": 1.5, "confidence": 0.85, "reasoning": "Bad", "data_quality": "high"}"#;
    let result = parse_estimate(text);
    assert_eq!(result.unwrap_err(), EstimateError::BadProbability);
}

#[test]
fn test_parse_estimate_invalid_data_quality() {
    let text = r#"{"probability": 0.72, "confidence": 0.85, "reasoning": "Bad quality", "data_quality": "excellent"}"#;
    let result = parse_estimate(text);
    assert_eq!(result.unwrap_err(), EstimateError::BadDataQuality);
}

#[test]
fn test_parse_estimate_not_json() {
    let result = parse_estimate("the model rambled instead of answering");
    assert_eq!(result.unwrap_err(), EstimateError::NotJson);
}

#[test]
fn test_triage_decision_from_text() {
    assert_eq!(triage_decision("YES. Worth a deep look."), TriageDecision::Analyze);
    assert_eq!(triage_decision("yes, clearly mispriced"), TriageDecision::Analyze);
    assert_eq!(triage_decision("NO. Efficient market."), TriageDecision::Skip);
    assert_eq!(triage_decision(""), TriageDecision::Skip);
}

#[test]
fn test_evaluate_budget_enforcement() {
    // The budget is checked before triage and again before analysis.
    assert!(!budget_allows_triage(500_000, 500_000));
    assert!(!budget_allows_triage(1_000_000, 500_000));
    assert!(budget_allows_triage(499_999, 500_000));
    assert!(!budget_allows_analysis(400_000, 100_000, 500_000));
    assert!(budget_allows_analysis(400_000, 99_999, 500_000));
}

#[test]
fn test_render_weather_block_exact() {
    let probs = WeatherProbabilities {
        city: "NYC".to_string(),
        station_icao: "KLGA".to_string(),
        forecast_date: "2026-02-20".to_string(),
        buckets: vec![
            BucketProbability {
                bucket_label: "74-76".to_string(),
                lower: 74,
                upper: 76,
                probability: 350_000,
            },
            BucketProbability {
                bucket_label: "76-78".to_string(),
                lower: 76,
                upper: 78,
                probability: 300_000,
            },
            BucketProbability {
                bucket_label: "78-80".to_string(),
                lower: 78,
                upper: 80,
                probability: 4_000,
            },
        ],
        ensemble_mean: 75_800_000,
        ensemble_std: 2_300_000,
        gefs_count: 31,
        ecmwf_count: 51,
        nws_forecast_high: Some(76_000_000),
        bias_correction: Some(1_200_000),
    };
    let block = render_weather_block(&probs, Some(350_000));
    let text = String::from_utf8(block).unwrap();
    let mut expected = String::new();
    expected.push_str("### Weather Ensemble Forecast\n");
    expected.push_str("- **City:** NYC\n");
    expected.push_str("- **Station:** KLGA (resolution source: Weather Underground)\n");
    expected.push_str("- **Forecast date:** 2026-02-20\n");
    expected.push_str("- **Ensemble members:** 31 GEFS + 51 ECMWF = 82 total\n");
    expected.push_str("- **Combined ensemble mean:** 75.8\u{00b0}F\n");
    expected.push_str("- **Combined ensemble std dev:** 2.3\u{00b0}F\n");
    expected.push_str("- **Temperature bucket probabilities:**\n");
    expected.push_str("  - 74-76\u{00b0}F: 35.0%\n");
    expected.push_str("  - 76-78\u{00b0}F: 30.0%\n");
    expected.push_str("- **NWS Official Forecast High:** 76\u{00b0}F\n");
    expected.push_str("- **Bias Correction Applied:** +1.2\u{00b0}F (ensemble shifted to match NWS)\n");
    expected.push_str("- **Model probability for this outcome:** 35.0%\n");
    assert_eq!(text, expected);
}

#[test]
fn test_render_weather_block_without_optional_lines() {
    let probs = WeatherProbabilities {
        city: "CHI".to_string(),
        station_icao: "KMDW".to_string(),
        forecast_date: "2026-03-01".to_string(),
        buckets: vec![BucketProbability {
            bucket_label: "40-42".to_string(),
            lower: 40,
            upper: 42,
            probability: 1_000_000,
        }],
        ensemble_mean: 41_000_000,
        ensemble_std: 1_500_000,
        gefs_count: 20,
        ecmwf_count: 0,
        nws_forecast_high: None,
        bias_correction: None,
    };
    let block = render_weather_block(&probs, None);
    let text = String::from_utf8(block).unwrap();
    assert!(text.ends_with("- **Temperature bucket probabilities:**\n  - 40-42\u{00b0}F: 100.0%\n"));
    assert!(!text.contains("NWS Official Forecast High"));
    assert!(!text.contains("Bias Correction Applied"));
    assert!(!text.contains("Model probability"));
}
