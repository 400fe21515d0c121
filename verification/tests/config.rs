use global_price_index::config::{Config, ConfigError, ConfigVar};
use global_price_index::decimal::parse_unsigned;

fn full() -> Vec<(String, String)> {
    [
        ("SERVER_HOST", "127.0.0.1"),
        ("SERVER_PORT", "8080"),
        ("REDIS_URL", "redis://127.0.0.1/"),
        ("BINANCE_API_URL", "https://api.binance.com/api/v3/ticker/bookTicker?symbol=BTCUSDT"),
        ("KRAKEN_API_URL", "wss://ws.kraken.com"),
        ("HUOBI_API_URL", "wss://api.huobi.pro/ws"),
        ("PRICE_COLLECTION_INTERVAL", "5000"),
        ("CACHE_EXPIRATION_TIME", "60"),
        ("CACHE_CHECK_INTERVAL_MS", "100"),
        ("MAX_CACHE_CHECK_ATTEMPTS", "5"),
    ]
    .iter()
    .map(|(name, value)| (name.to_string(), value.to_string()))
    .collect()
}

fn with(name: &str, value: &str) -> Vec<(String, String)> {
    let mut vars = full();
    for var in vars.iter_mut() {
        if var.0 == name {
            var.1 = value.to_string();
        }
    }
    vars
}

fn without(name: &str) -> Vec<(String, String)> {
    full().into_iter().filter(|var| var.0 != name).collect()
}

const ALL: [ConfigVar; 10] = [
    ConfigVar::ServerHost,
    ConfigVar::ServerPort,
    ConfigVar::RedisUrl,
    ConfigVar::BinanceApiUrl,
    ConfigVar::KrakenApiUrl,
    ConfigVar::HuobiApiUrl,
    ConfigVar::PriceCollectionInterval,
    ConfigVar::CacheExpirationTime,
    ConfigVar::CacheCheckIntervalMs,
    ConfigVar::MaxCacheCheckAttempts,
];

#[test]
fn a_full_environment_gives_the_configuration() {
    let mut vars = full();
    vars.insert(0, ("PATH".to_string(), "/usr/bin".to_string()));
    vars.push(("HOME".to_string(), "/root".to_string()));
    assert_eq!(Config::check_numbers(&vars), Ok(()));
    let config = Config::from_env(&vars).unwrap();
    assert_eq!(config.server_host, "127.0.0.1");
    assert_eq!(config.server_port, 8080);
    assert_eq!(config.redis_url, "redis://127.0.0.1/");
    assert_eq!(
        config.binance_api_url,
        "https://api.binance.com/api/v3/ticker/bookTicker?symbol=BTCUSDT"
    );
    assert_eq!(config.kraken_api_url, "wss://ws.kraken.com");
    assert_eq!(config.huobi_api_url, "wss://api.huobi.pro/ws");
    assert_eq!(config.price_collection_interval, 5000);
    assert_eq!(config.cache_expiration_time, 60);
    assert_eq!(config.cache_check_interval_ms, 100);
    assert_eq!(config.max_cache_check_attempts, 5);
}

#[test]
fn each_missing_variable_is_reported() {
    for var in ALL {
        let result = Config::from_env(&without(var.env_name()));
        assert_eq!(result.err(), Some(ConfigError::Missing(var)));
    }
    assert_eq!(
        Config::from_env(&Vec::new()).err(),
        Some(ConfigError::Missing(ConfigVar::ServerHost))
    );
}

#[test]
fn each_invalid_number_is_reported() {
    for var in [
        ConfigVar::ServerPort,
        ConfigVar::PriceCollectionInterval,
        ConfigVar::CacheExpirationTime,
        ConfigVar::CacheCheckIntervalMs,
        ConfigVar::MaxCacheCheckAttempts,
    ] {
        for text in ["", "abc", "-1", "1.5", " 7", "7 ", "+", "1_000", "99999999999999999999"] {
            let result = Config::check_numbers(&with(var.env_name(), text));
            assert_eq!(result, Err(ConfigError::Invalid(var)), "{:?}", text);
        }
    }
}

#[test]
fn the_first_fault_in_the_order_of_the_settings_is_reported() {
    let mut vars = with("SERVER_PORT", "x");
    vars.retain(|var| var.0 != "REDIS_URL" && var.0 != "SERVER_HOST");
    assert_eq!(Config::check_numbers(&vars), Ok(()));
    assert_eq!(
        Config::from_env(&vars).err(),
        Some(ConfigError::Missing(ConfigVar::ServerHost))
    );
    let mut vars = with("SERVER_PORT", "x");
    vars.retain(|var| var.0 != "REDIS_URL");
    assert_eq!(
        Config::check_numbers(&vars),
        Err(ConfigError::Invalid(ConfigVar::ServerPort))
    );
    let mut vars = with("MAX_CACHE_CHECK_ATTEMPTS", "x");
    vars.retain(|var| var.0 != "CACHE_CHECK_INTERVAL_MS");
    assert_eq!(Config::check_numbers(&vars), Ok(()));
    assert_eq!(
        Config::from_env(&vars).err(),
        Some(ConfigError::Missing(ConfigVar::CacheCheckIntervalMs))
    );
    let mut vars = with("MAX_CACHE_CHECK_ATTEMPTS", "x");
    assert_eq!(
        Config::check_numbers(&vars),
        Err(ConfigError::Invalid(ConfigVar::MaxCacheCheckAttempts))
    );
    vars[7].1 = "y".to_string();
    assert_eq!(
        Config::check_numbers(&vars),
        Err(ConfigError::Invalid(ConfigVar::CacheExpirationTime))
    );
}

#[test]
fn numbers_hold_the_range_of_their_setting() {
    assert_eq!(Config::from_env(&with("SERVER_PORT", "65535")).unwrap().server_port, 65535);
    assert_eq!(
        Config::check_numbers(&with("SERVER_PORT", "65536")),
        Err(ConfigError::Invalid(ConfigVar::ServerPort))
    );
    assert_eq!(Config::check_numbers(&with("SERVER_PORT", "65535")), Ok(()));
    assert_eq!(Config::from_env(&with("SERVER_PORT", "0")).unwrap().server_port, 0);
    assert_eq!(
        Config::from_env(&with("PRICE_COLLECTION_INTERVAL", "18446744073709551615"))
            .unwrap()
            .price_collection_interval,
        u64::MAX
    );
    assert_eq!(
        Config::check_numbers(&with("PRICE_COLLECTION_INTERVAL", "18446744073709551616")),
        Err(ConfigError::Invalid(ConfigVar::PriceCollectionInterval))
    );
    assert_eq!(
        Config::from_env(&with("MAX_CACHE_CHECK_ATTEMPTS", "+007"))
            .unwrap()
            .max_cache_check_attempts,
        7
    );
}

#[test]
fn the_first_of_two_variables_of_one_name_counts() {
    let mut vars = full();
    vars.push(("SERVER_HOST".to_string(), "0.0.0.0".to_string()));
    assert_eq!(Config::from_env(&vars).unwrap().server_host, "127.0.0.1");
}

#[test]
fn texts_are_taken_as_they_are() {
    let config = Config::from_env(&with("SERVER_HOST", "")).unwrap();
    assert_eq!(config.server_host, "");
    let config = Config::from_env(&with("REDIS_URL", " häst ")).unwrap();
    assert_eq!(config.redis_url, " häst ");
}

#[test]
fn parse_unsigned_reads_digits_with_an_optional_plus() {
    assert_eq!(parse_unsigned("0"), Some(0));
    assert_eq!(parse_unsigned("42"), Some(42));
    assert_eq!(parse_unsigned("+42"), Some(42));
    assert_eq!(parse_unsigned("0042"), Some(42));
    assert_eq!(parse_unsigned("18446744073709551615"), Some(u64::MAX));
    assert_eq!(parse_unsigned("00018446744073709551615"), Some(u64::MAX));
}

#[test]
fn parse_unsigned_agrees_with_the_standard_library() {
    for text in [
        "", "+", "-", "-0", "-5", "++5", "5+", "4 2", " 42", "42 ", "4.2", "0x10", "1e3", "١٢",
        "18446744073709551616", "99999999999999999999999999", "+18446744073709551615", "+0", "٣",
        "12345678901234567890", "é", "+é", "1é",
    ] {
        assert_eq!(parse_unsigned(text), text.parse::<u64>().ok(), "{:?}", text);
    }
}
