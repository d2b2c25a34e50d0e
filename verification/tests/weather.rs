use polymarket_agent::weather::{
    city_slug, get_weather_model_probability, month_name_to_number, parse_weather_market,
    BucketProbability, WeatherMarketInfo, WeatherProbabilities,
};

const TY: i64 = 2026;
const TM: i64 = 2;
const TD: i64 = 5;

#[test]
fn test_parse_weather_market_between_dash() {
    let q = "Will the highest temperature in New York City be between 34-35\u{00b0}F on February 11?";
    let info = parse_weather_market(q, TY, TM, TD).unwrap();
    assert_eq!(info.city, "NYC");
    assert_eq!(info.bucket_lower, 34);
    assert_eq!(info.bucket_upper, 35);
    assert_eq!(info.bucket_label, "34-35");
    assert!(info.date.starts_with("20"));
    assert!(info.date.ends_with("-02-11"));
}

#[test]
fn test_parse_weather_market_or_below() {
    let q = "Will the highest temperature in Chicago be 33\u{00b0}F or below on February 11?";
    let info = parse_weather_market(q, TY, TM, TD).unwrap();
    assert_eq!(info.city, "CHI");
    assert_eq!(info.bucket_lower, -60);
    assert_eq!(info.bucket_upper, 33);
    assert!(info.date.ends_with("-02-11"));
}

#[test]
fn test_parse_weather_market_or_higher() {
    let q = "Will the highest temperature in Miami be 78\u{00b0}F or higher on February 12?";
    let info = parse_weather_market(q, TY, TM, TD).unwrap();
    assert_eq!(info.city, "MIA");
    assert_eq!(info.bucket_lower, 78);
    assert_eq!(info.bucket_upper, 130);
    assert!(info.date.ends_with("-02-12"));
}

#[test]
fn test_parse_weather_market_not_weather() {
    let q = "Will Bitcoin reach $100,000 by March 2026?";
    assert!(parse_weather_market(q, TY, TM, TD).is_none());
}

#[test]
fn test_parse_weather_market_between_and() {
    let q = "Will the high temperature in New York City on February 20, 2026 be between 74\u{00b0}F and 76\u{00b0}F?";
    let info = parse_weather_market(q, TY, TM, TD).unwrap();
    assert_eq!(info.city, "NYC");
    assert_eq!(info.date, "2026-02-20");
    assert_eq!(info.bucket_lower, 74);
    assert_eq!(info.bucket_upper, 76);
}

#[test]
fn test_parse_weather_market_iso_date() {
    let q = "Will the high temperature in Chicago on 2026-03-05 be 60-62\u{00b0}F?";
    let info = parse_weather_market(q, TY, TM, TD).unwrap();
    assert_eq!(info.city, "CHI");
    assert_eq!(info.date, "2026-03-05");
    assert_eq!(info.bucket_lower, 60);
    assert_eq!(info.bucket_upper, 62);
}

#[test]
fn test_parse_weather_year_inference_rolls_over() {
    // More than a week in the past rolls to the next year.
    let q = "Will the highest temperature in Boston be between 34-35\u{00b0}F on January 2?";
    let info = parse_weather_market(q, 2026, 6, 15).unwrap();
    assert_eq!(info.date, "2027-01-02");
}

#[test]
fn test_month_name_to_number_cases() {
    assert_eq!(month_name_to_number("January"), Some(1));
    assert_eq!(month_name_to_number("february"), Some(2));
    assert_eq!(month_name_to_number("DECEMBER"), Some(12));
    assert_eq!(month_name_to_number("Smarch"), None);
}

#[test]
fn test_city_slug_lookup() {
    assert_eq!(city_slug("NYC"), Some("nyc"));
    assert_eq!(city_slug("LAX"), Some("los-angeles"));
    assert_eq!(city_slug("STL"), Some("st-louis"));
    assert_eq!(city_slug("XXX"), None);
}

fn sample_probs(buckets: Vec<BucketProbability>) -> WeatherProbabilities {
    WeatherProbabilities {
        city: "NYC".to_string(),
        station_icao: "KLGA".to_string(),
        forecast_date: "2026-02-20".to_string(),
        buckets,
        ensemble_mean: 75_500_000,
        ensemble_std: 2_000_000,
        gefs_count: 31,
        ecmwf_count: 51,
        nws_forecast_high: None,
        bias_correction: None,
    }
}

#[test]
fn test_get_weather_model_probability_exact_bucket() {
    let probs = sample_probs(vec![
        BucketProbability { bucket_label: "74-76".to_string(), lower: 74, upper: 76, probability: 350_000 },
        BucketProbability { bucket_label: "76-78".to_string(), lower: 76, upper: 78, probability: 300_000 },
    ]);
    let info = WeatherMarketInfo {
        city: "NYC".to_string(),
        date: "2026-02-20".to_string(),
        bucket_label: "74-76".to_string(),
        bucket_lower: 74,
        bucket_upper: 76,
    };
    assert_eq!(get_weather_model_probability(&info, &probs), Some(350_000));
}

#[test]
fn test_get_weather_model_probability_above() {
    let probs = sample_probs(vec![
        BucketProbability { bucket_label: "88-90".to_string(), lower: 88, upper: 90, probability: 200_000 },
        BucketProbability { bucket_label: "90-92".to_string(), lower: 90, upper: 92, probability: 50_000 },
        BucketProbability { bucket_label: "92-94".to_string(), lower: 92, upper: 94, probability: 10_000 },
    ]);
    let info = WeatherMarketInfo {
        city: "MIA".to_string(),
        date: "2026-03-10".to_string(),
        bucket_label: "90-130".to_string(),
        bucket_lower: 90,
        bucket_upper: 130,
    };
    // 0.05 + 0.01
    assert_eq!(get_weather_model_probability(&info, &probs), Some(60_000));
}
