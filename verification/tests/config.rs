use polymarket_agent::config::TradingMode;

#[test]
fn test_trading_mode_parsing() {
    assert_eq!("paper".parse::<TradingMode>().unwrap(), TradingMode::Paper);
    assert_eq!("live".parse::<TradingMode>().unwrap(), TradingMode::Live);
    assert_eq!("Paper".parse::<TradingMode>().unwrap(), TradingMode::Paper);
    assert_eq!("LIVE".parse::<TradingMode>().unwrap(), TradingMode::Live);
    assert!("invalid".parse::<TradingMode>().is_err());
}

#[test]
fn test_trading_mode_display() {
    assert_eq!(TradingMode::Paper.label(), "paper");
    assert_eq!(TradingMode::Live.label(), "live");
}
