//! The service's configuration and how it is read from the environment.

use vstd::prelude::*;
use crate::decimal::{parse_unsigned, unsigned_decimal_up_to};

verus! {

/// The settings of the service.
#[derive(Debug, Clone)]
pub struct Config {
    /// The address the HTTP server binds to.
    pub server_host: String,
    /// The port the HTTP server binds to.
    pub server_port: u16,
    /// Where the cache store is reached.
    pub redis_url: String,
    /// Where Binance is reached.
    pub binance_api_url: String,
    /// Where Kraken is reached.
    pub kraken_api_url: String,
    /// Where Huobi is reached.
    pub huobi_api_url: String,
    /// The pause between two collection cycles, in milliseconds.
    pub price_collection_interval: u64,
    /// The time to live of a cached price, in seconds.
    pub cache_expiration_time: usize,
    /// The pause between two reads of one request, in milliseconds.
    pub cache_check_interval_ms: u64,
    /// How often one request reads the cache at most.
    pub max_cache_check_attempts: usize,
}

/// A configuration, its texts as sequences of characters.
pub struct ConfigView {
    pub server_host: Seq<char>,
    pub server_port: u16,
    pub redis_url: Seq<char>,
    pub binance_api_url: Seq<char>,
    pub kraken_api_url: Seq<char>,
    pub huobi_api_url: Seq<char>,
    pub price_collection_interval: u64,
    pub cache_expiration_time: usize,
    pub cache_check_interval_ms: u64,
    pub max_cache_check_attempts: usize,
}

impl View for Config {
    type V = ConfigView;

    open spec fn view(&self) -> ConfigView {
        ConfigView {
            server_host: self.server_host@,
            server_port: self.server_port,
            redis_url: self.redis_url@,
            binance_api_url: self.binance_api_url@,
            kraken_api_url: self.kraken_api_url@,
            huobi_api_url: self.huobi_api_url@,
            price_collection_interval: self.price_collection_interval,
            cache_expiration_time: self.cache_expiration_time,
            cache_check_interval_ms: self.cache_check_interval_ms,
            max_cache_check_attempts: self.max_cache_check_attempts,
        }
    }
}

/// A variable of the environment that the configuration is read from.
#[derive(Clone, Copy, Debug, PartialEq, Eq, Structural)]
pub enum ConfigVar {
    ServerHost,
    ServerPort,
    RedisUrl,
    BinanceApiUrl,
    KrakenApiUrl,
    HuobiApiUrl,
    PriceCollectionInterval,
    CacheExpirationTime,
    CacheCheckIntervalMs,
    MaxCacheCheckAttempts,
}

impl ConfigVar {
    /// The variable's name in the environment.
    pub open spec fn name(self) -> Seq<char> {
        match self {
            ConfigVar::ServerHost => "SERVER_HOST"@,
            ConfigVar::ServerPort => "SERVER_PORT"@,
            ConfigVar::RedisUrl => "REDIS_URL"@,
            ConfigVar::BinanceApiUrl => "BINANCE_API_URL"@,
            ConfigVar::KrakenApiUrl => "KRAKEN_API_URL"@,
            ConfigVar::HuobiApiUrl => "HUOBI_API_URL"@,
            ConfigVar::PriceCollectionInterval => "PRICE_COLLECTION_INTERVAL"@,
            ConfigVar::CacheExpirationTime => "CACHE_EXPIRATION_TIME"@,
            ConfigVar::CacheCheckIntervalMs => "CACHE_CHECK_INTERVAL_MS"@,
            ConfigVar::MaxCacheCheckAttempts => "MAX_CACHE_CHECK_ATTEMPTS"@,
        }
    }

    /// The variable's name in the environment.
    pub fn env_name(&self) -> (name: &'static str)
        ensures
            name@ == self.name(),
    {
        match self {
            ConfigVar::ServerHost => "SERVER_HOST",
            ConfigVar::ServerPort => "SERVER_PORT",
            ConfigVar::RedisUrl => "REDIS_URL",
            ConfigVar::BinanceApiUrl => "BINANCE_API_URL",
            ConfigVar::KrakenApiUrl => "KRAKEN_API_URL",
            ConfigVar::HuobiApiUrl => "HUOBI_API_URL",
            ConfigVar::PriceCollectionInterval => "PRICE_COLLECTION_INTERVAL",
            ConfigVar::CacheExpirationTime => "CACHE_EXPIRATION_TIME",
            ConfigVar::CacheCheckIntervalMs => "CACHE_CHECK_INTERVAL_MS",
            ConfigVar::MaxCacheCheckAttempts => "MAX_CACHE_CHECK_ATTEMPTS",
        }
    }
}

/// Why no configuration could be read.
#[derive(Clone, Copy, Debug, PartialEq, Eq, Structural)]
pub enum ConfigError {
    /// The environment does not hold the variable.
    Missing(ConfigVar),
    /// The variable's value is not an unsigned decimal number that fits the
    /// setting.
    Invalid(ConfigVar),
}

/// The value of the first variable of `vars` that is named `name`.
pub open spec fn lookup(vars: Seq<(String, String)>, name: Seq<char>) -> Option<Seq<char>>
    decreases vars.len(),
{
    if vars.len() == 0 {
        None
    } else if vars.first().0@ == name {
        Some(vars.first().1@)
    } else {
        lookup(vars.drop_first(), name)
    }
}

/// The text that `vars` gives to `var`.
pub open spec fn text_of(vars: Seq<(String, String)>, var: ConfigVar) -> Result<
    Seq<char>,
    ConfigError,
> {
    match lookup(vars, var.name()) {
        Some(text) => Ok(text),
        None => Err(ConfigError::Missing(var)),
    }
}

/// The number that `vars` gives to `var`, for a setting that holds numbers
/// up to `max`.
pub open spec fn number_of(vars: Seq<(String, String)>, var: ConfigVar, max: int) -> Result<
    nat,
    ConfigError,
> {
    match lookup(vars, var.name()) {
        Some(text) => match unsigned_decimal_up_to(text, max) {
            Some(value) => Ok(value),
            None => Err(ConfigError::Invalid(var)),
        },
        None => Err(ConfigError::Missing(var)),
    }
}

/// The configuration that the environment `vars` holds: each setting is
/// taken from its variable, and the first variable, in the order of the
/// settings, that is missing or invalid decides the error.
pub open spec fn config_of(vars: Seq<(String, String)>) -> Result<ConfigView, ConfigError> {
    let host = text_of(vars, ConfigVar::ServerHost);
    let port = number_of(vars, ConfigVar::ServerPort, u16::MAX as int);
    let redis = text_of(vars, ConfigVar::RedisUrl);
    let binance = text_of(vars, ConfigVar::BinanceApiUrl);
    let kraken = text_of(vars, ConfigVar::KrakenApiUrl);
    let huobi = text_of(vars, ConfigVar::HuobiApiUrl);
    let interval = number_of(vars, ConfigVar::PriceCollectionInterval, u64::MAX as int);
    let expiration = number_of(vars, ConfigVar::CacheExpirationTime, usize::MAX as int);
    let check = number_of(vars, ConfigVar::CacheCheckIntervalMs, u64::MAX as int);
    let attempts = number_of(vars, ConfigVar::MaxCacheCheckAttempts, usize::MAX as int);
    if host is Err {
        Err(host->Err_0)
    } else if port is Err {
        Err(port->Err_0)
    } else if redis is Err {
        Err(redis->Err_0)
    } else if binance is Err {
        Err(binance->Err_0)
    } else if kraken is Err {
        Err(kraken->Err_0)
    } else if huobi is Err {
        Err(huobi->Err_0)
    } else if interval is Err {
        Err(interval->Err_0)
    } else if expiration is Err {
        Err(expiration->Err_0)
    } else if check is Err {
        Err(check->Err_0)
    } else if attempts is Err {
        Err(attempts->Err_0)
    } else {
        Ok(
            ConfigView {
                server_host: host->Ok_0,
                server_port: port->Ok_0 as u16,
                redis_url: redis->Ok_0,
                binance_api_url: binance->Ok_0,
                kraken_api_url: kraken->Ok_0,
                huobi_api_url: huobi->Ok_0,
                price_collection_interval: interval->Ok_0 as u64,
                cache_expiration_time: expiration->Ok_0 as usize,
                cache_check_interval_ms: check->Ok_0 as u64,
                max_cache_check_attempts: attempts->Ok_0 as usize,
            },
        )
    }
}

/// Looks `var` up in `vars`.
fn find_var(vars: &Vec<(String, String)>, var: ConfigVar) -> (found: Option<usize>)
    ensures
        match found {
            Some(i) => i < vars.len() && lookup(vars@, var.name()) == Some(vars@[i as int].1@),
            None => lookup(vars@, var.name()) is None,
        },
{
    let wanted: String = var.env_name().to_string();
    let mut i: usize = 0;
    proof {
        assert(vars@.skip(0) =~= vars@);
    }
    while i < vars.len()
        invariant
            i <= vars.len(),
            wanted@ == var.name(),
            lookup(vars@, var.name()) == lookup(vars@.skip(i as int), var.name()),
        decreases vars.len() - i,
    {
        proof {
            let rest = vars@.skip(i as int);
            assert(rest.first() == vars@[i as int]);
            assert(rest.drop_first() =~= vars@.skip(i + 1));
        }
        if vars[i].0 == wanted {
            return Some(i);
        }
        i = i + 1;
    }
    None
}

/// The text of `var`.
fn read_text(vars: &Vec<(String, String)>, var: ConfigVar) -> (text: Result<String, ConfigError>)
    ensures
        match text {
            Ok(t) => text_of(vars@, var) == Ok::<Seq<char>, ConfigError>(t@),
            Err(e) => text_of(vars@, var) == Err::<Seq<char>, ConfigError>(e),
        },
{
    match find_var(vars, var) {
        Some(i) => Ok(vars[i].1.clone()),
        None => Err(ConfigError::Missing(var)),
    }
}

/// The number of `var`, for a setting that holds numbers up to `max`.
fn read_number(vars: &Vec<(String, String)>, var: ConfigVar, max: u64) -> (number: Result<
    u64,
    ConfigError,
>)
    ensures
        match number {
            Ok(n) => number_of(vars@, var, max as int) == Ok::<nat, ConfigError>(n as nat),
            Err(e) => number_of(vars@, var, max as int) == Err::<nat, ConfigError>(e),
        },
{
    match find_var(vars, var) {
        Some(i) => match parse_unsigned(vars[i].1.as_str()) {
            Some(value) => if value <= max {
                Ok(value)
            } else {
                Err(ConfigError::Invalid(var))
            },
            None => Err(ConfigError::Invalid(var)),
        },
        None => Err(ConfigError::Missing(var)),
    }
}

/// Whether a reading of `vars` meets no variable that is set to what is no
/// number of its setting. The variables are read in the order of the
/// settings, and the reading ends at the first one that is missing.
pub open spec fn numbers_fit(vars: Seq<(String, String)>) -> bool {
    match config_of(vars) {
        Err(ConfigError::Invalid(_)) => false,
        _ => true,
    }
}

/// Reads `vars` in the order of the settings, up to the first fault.
fn read_env(vars: &Vec<(String, String)>) -> (config: Result<Config, ConfigError>)
    ensures
        match config {
            Ok(c) => config_of(vars@) == Ok::<ConfigView, ConfigError>(c@),
            Err(e) => config_of(vars@) == Err::<ConfigView, ConfigError>(e),
        },
{
    let server_host: String = match read_text(vars, ConfigVar::ServerHost) {
        Ok(text) => text,
        Err(e) => {
            return Err(e);
        },
    };
    let server_port: u64 = match read_number(vars, ConfigVar::ServerPort, 0xffff) {
        Ok(number) => number,
        Err(e) => {
            return Err(e);
        },
    };
    let redis_url: String = match read_text(vars, ConfigVar::RedisUrl) {
        Ok(text) => text,
        Err(e) => {
            return Err(e);
        },
    };
    let binance_api_url: String = match read_text(vars, ConfigVar::BinanceApiUrl) {
        Ok(text) => text,
        Err(e) => {
            return Err(e);
        },
    };
    let kraken_api_url: String = match read_text(vars, ConfigVar::KrakenApiUrl) {
        Ok(text) => text,
        Err(e) => {
            return Err(e);
        },
    };
    let huobi_api_url: String = match read_text(vars, ConfigVar::HuobiApiUrl) {
        Ok(text) => text,
        Err(e) => {
            return Err(e);
        },
    };
    let price_collection_interval: u64 = match read_number(
        vars,
        ConfigVar::PriceCollectionInterval,
        u64::MAX,
    ) {
        Ok(number) => number,
        Err(e) => {
            return Err(e);
        },
    };
    let cache_expiration_time: u64 = match read_number(
        vars,
        ConfigVar::CacheExpirationTime,
        usize::MAX as u64,
    ) {
        Ok(number) => number,
        Err(e) => {
            return Err(e);
        },
    };
    let cache_check_interval_ms: u64 = match read_number(
        vars,
        ConfigVar::CacheCheckIntervalMs,
        u64::MAX,
    ) {
        Ok(number) => number,
        Err(e) => {
            return Err(e);
        },
    };
    let max_cache_check_attempts: u64 = match read_number(
        vars,
        ConfigVar::MaxCacheCheckAttempts,
        usize::MAX as u64,
    ) {
        Ok(number) => number,
        Err(e) => {
            return Err(e);
        },
    };
    Ok(
        Config {
            server_host,
            server_port: server_port as u16,
            redis_url,
            binance_api_url,
            kraken_api_url,
            huobi_api_url,
            price_collection_interval,
            cache_expiration_time: cache_expiration_time as usize,
            cache_check_interval_ms,
            max_cache_check_attempts: max_cache_check_attempts as usize,
        },
    )
}

impl Config {
    /// Reads the configuration from the variables of the environment, each
    /// given as its name and its value.
    ///
    /// Texts are taken as they are. Numbers are unsigned decimal numbers:
    /// an optional plus sign and digits, nothing else. The first variable, in
    /// the order of the settings, that is missing is reported. The call is
    /// for environments whose numbers fit, which `check_numbers` tells.
    pub fn from_env(vars: &Vec<(String, String)>) -> (config: Result<Config, ConfigError>)
        requires
            numbers_fit(vars@),
        ensures
            match config {
                Ok(c) => config_of(vars@) == Ok::<ConfigView, ConfigError>(c@),
                Err(e) => e is Missing && config_of(vars@) == Err::<ConfigView, ConfigError>(e),
            },
    {
        read_env(vars)
    }

    /// Tells whether the numbers of `vars` fit: `Invalid` names the first
    /// variable, in the order of the settings, that is set to what is no
    /// number of its setting, where no variable before it is missing.
    pub fn check_numbers(vars: &Vec<(String, String)>) -> (checked: Result<(), ConfigError>)
        ensures
            match checked {
                Ok(_) => numbers_fit(vars@),
                Err(e) => e is Invalid && config_of(vars@) == Err::<ConfigView, ConfigError>(e),
            },
    {
        match read_env(vars) {
            Err(ConfigError::Invalid(var)) => Err(ConfigError::Invalid(var)),
            _ => Ok(()),
        }
    }
}

} // verus!
