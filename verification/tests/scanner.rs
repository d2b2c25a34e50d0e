use polymarket_agent::scanner::{filter_markets, filter_weather_markets, should_fetch_next_page, GammaMarket, Token};
use polymarket_agent::weather::weather_city_codes;

fn sample_market(id: u64, volume: i64, liquidity: i64, closed: bool) -> GammaMarket {
    GammaMarket {
        id: id.to_string(),
        question: format!("Test market {}", id),
        slug: Some(format!("test-market-{}", id)),
        condition_id: Some(format!("0xcond{}", id)),
        tokens: vec![
            Token { token_id: format!("tok_yes_{}", id), outcome: "Yes".to_string(), price: Some(650_000) },
            Token { token_id: format!("tok_no_{}", id), outcome: "No".to_string(), price: Some(350_000) },
        ],
        volume: Some(volume),
        liquidity: Some(liquidity),
        end_date: Some("2026-03-01T00:00:00Z".to_string()),
        closed,
        active: !closed,
        tags: vec![],
    }
}

#[test]
fn test_filter_removes_low_liquidity() {
    let markets = vec![
        sample_market(1, 5_000_000_000, 2_000_000_000, false),
        sample_market(2, 5_000_000_000, 100_000_000, false),
    ];
    let filtered = filter_markets(markets, 500_000_000, 1_000_000_000);
    assert_eq!(filtered.len(), 1);
    assert_eq!(filtered[0].id, "1");
}

#[test]
fn test_filter_removes_closed() {
    let markets = vec![
        sample_market(1, 5_000_000_000, 2_000_000_000, false),
        sample_market(2, 5_000_000_000, 2_000_000_000, true),
    ];
    let filtered = filter_markets(markets, 500_000_000, 1_000_000_000);
    assert_eq!(filtered.len(), 1);
    assert_eq!(filtered[0].id, "1");
}

#[test]
fn test_pagination_stops_on_short_page() {
    assert!(should_fetch_next_page(50, 50, 50, 500));
    assert!(!should_fetch_next_page(49, 50, 99, 500));
    assert!(!should_fetch_next_page(0, 50, 99, 500));
    assert!(!should_fetch_next_page(50, 50, 500, 500));
}

#[test]
fn test_filter_weather_markets_window_and_city() {
    let mut nyc = sample_market(1, 5_000_000_000, 2_000_000_000, false);
    nyc.question =
        "Will the high temperature in New York City on 2026-02-14 be between 40\u{00b0}F and 42\u{00b0}F?"
            .to_string();
    let mut far = sample_market(2, 5_000_000_000, 2_000_000_000, false);
    far.question =
        "Will the high temperature in Chicago on 2026-06-01 be between 70\u{00b0}F and 72\u{00b0}F?"
            .to_string();
    let mut not_weather = sample_market(3, 5_000_000_000, 2_000_000_000, false);
    not_weather.question = "Will Bitcoin reach $100k?".to_string();
    let codes = weather_city_codes();
    let kept = filter_weather_markets(vec![nyc, far, not_weather], &codes, 2026, 2, 12, 7);
    assert_eq!(kept.len(), 1);
    assert_eq!(kept[0].id, "1");
}

#[test]
fn test_filter_requires_both_token_ids() {
    let mut only_yes = sample_market(1, 5_000_000_000, 2_000_000_000, false);
    only_yes.tokens.pop();
    let both = sample_market(2, 5_000_000_000, 2_000_000_000, false);
    let filtered = filter_markets(vec![only_yes, both], 500_000_000, 1_000_000_000);
    assert_eq!(filtered.len(), 1);
    assert_eq!(filtered[0].id, "2");
}
