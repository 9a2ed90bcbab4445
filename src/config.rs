//! The configuration record the pool and the relay read.
//!
//! Loading it from disk is the host program's business; the library only
//! holds the values and knows the built-in defaults.
use vstd::prelude::*;

verus! {

/// Where the relay listens.
#[derive(Debug, Clone)]
pub struct ServerConfig {
    pub bind_host: String,
    pub bind_port: u16,
    pub max_connections: usize,
}

/// Pool and session settings.
#[derive(Debug, Clone)]
pub struct ProxyConfig {
    pub proxy_file: String,
    /// Seconds allowed for one full probe at load time.
    pub test_timeout: u64,
    pub health_check_switch: bool,
    /// Seconds between two health cycles.
    pub health_check_interval: u64,
    pub retry_times: u32,
    pub auto_switch: bool,
    /// Seconds between two automatic rotations.
    pub switch_interval: u64,
    /// Probes that may run at once.
    pub max_concurrency: usize,
    /// Whether clients must authenticate with user name and password.
    pub use_auth: bool,
    pub username: String,
    pub password: String,
}

/// Which records the host program logs.
#[derive(Debug, Clone)]
pub struct LogConfig {
    pub show_connection_log: bool,
    pub show_error_log: bool,
}

/// Settings of the FOFA search source.
#[derive(Debug, Clone)]
pub struct FofaConfig {
    pub switch: bool,
    pub api_url: String,
    pub fofa_key: String,
    pub query_str: String,
    pub size: u64,
}

/// Settings of the Quake search source.
#[derive(Debug, Clone)]
pub struct QuakeConfig {
    pub switch: bool,
    pub api_url: String,
    pub quake_key: String,
    pub query_str: String,
    pub size: u64,
}

/// Settings of the Hunter search source.
#[derive(Debug, Clone)]
pub struct HunterConfig {
    pub switch: bool,
    pub api_url: String,
    pub hunter_key: String,
    pub query_str: String,
    /// Number of result pages of one hundred entries.
    pub size: u64,
}

/// The whole configuration snapshot.
#[derive(Debug, Clone)]
pub struct Config {
    pub server: ServerConfig,
    pub proxy: ProxyConfig,
    pub log: LogConfig,
    pub fofa: FofaConfig,
    pub quake: QuakeConfig,
    pub hunter: HunterConfig,
}

impl ServerConfig {
    /// The listening host and port, for display.
    pub fn bind_info(&self) -> (r: (String, u16))
        ensures
            r.0@ == self.bind_host@,
            r.1 == self.bind_port,
    {
        (self.bind_host.clone(), self.bind_port)
    }
}

impl Default for Config {
    fn default() -> (r: Config)
        ensures
            r.server.bind_host@ == "127.0.0.1"@,
            r.server.bind_port == 1080,
            r.server.max_connections == 100,
            r.proxy.proxy_file@ == "proxies.txt"@,
            r.proxy.test_timeout == 5,
            r.proxy.health_check_switch,
            r.proxy.health_check_interval == 300,
            r.proxy.retry_times == 3,
            !r.proxy.auto_switch,
            r.proxy.switch_interval == 300,
            r.proxy.max_concurrency == 100,
            !r.proxy.use_auth,
            r.proxy.username@.len() == 0,
            r.proxy.password@.len() == 0,
            !r.log.show_connection_log,
            !r.log.show_error_log,
            !r.fofa.switch,
            r.fofa.api_url@ == "https://fofa.info/api/v1/search/all"@,
            r.fofa.fofa_key@ == "186******f8a******6a92******4abf1c"@,
            r.fofa.query_str@
                == "(protocol==\"socks5\" && country=\"CN\" && banner=\"Method:No Authentication\") && after=\"2025-02-25\""@,
            r.fofa.size == 10000,
            !r.quake.switch,
            r.quake.api_url@ == "https://quake.360.net/api/v3/search/quake_service"@,
            r.quake.quake_key@ == "0e****-3***-4***-a***-5a21********"@,
            r.quake.query_str@
                == "service:socks5 AND country: \"CN\" AND response:\"No authentication\""@,
            r.quake.size == 500,
            !r.hunter.switch,
            r.hunter.api_url@ == "https://hunter.qianxin.com/openApi/search"@,
            r.hunter.hunter_key@ == "365*******9ab9*******b0f0*******d1cd0d3399"@,
            r.hunter.query_str@
                == "protocol==\"socks5\"&&protocol.banner=\"No authentication\"&&ip.country=\"CN\""@,
            r.hunter.size == 4,
    {
        Config {
            server: ServerConfig {
                bind_host: String::from_str("127.0.0.1"),
                bind_port: 1080,
                max_connections: 100,
            },
            proxy: ProxyConfig {
                proxy_file: String::from_str("proxies.txt"),
                test_timeout: 5,
                health_check_switch: true,
                health_check_interval: 300,
                retry_times: 3,
                auto_switch: false,
                switch_interval: 300,
                max_concurrency: 100,
                use_auth: false,
                username: String::new(),
                password: String::new(),
            },
            log: LogConfig { show_connection_log: false, show_error_log: false },
            fofa: FofaConfig {
                switch: false,
                api_url: String::from_str("https://fofa.info/api/v1/search/all"),
                fofa_key: String::from_str("186******f8a******6a92******4abf1c"),
                query_str: String::from_str(
                    "(protocol==\"socks5\" && country=\"CN\" && banner=\"Method:No Authentication\") && after=\"2025-02-25\"",
                ),
                size: 10000,
            },
            quake: QuakeConfig {
                switch: false,
                api_url: String::from_str("https://quake.360.net/api/v3/search/quake_service"),
                quake_key: String::from_str("0e****-3***-4***-a***-5a21********"),
                query_str: String::from_str(
                    "service:socks5 AND country: \"CN\" AND response:\"No authentication\"",
                ),
                size: 500,
            },
            hunter: HunterConfig {
                switch: false,
                api_url: String::from_str("https://hunter.qianxin.com/openApi/search"),
                hunter_key: String::from_str("365*******9ab9*******b0f0*******d1cd0d3399"),
                query_str: String::from_str(
                    "protocol==\"socks5\"&&protocol.banner=\"No authentication\"&&ip.country=\"CN\"",
                ),
                size: 4,
            },
        }
    }
}

} // verus!
