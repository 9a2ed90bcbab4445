//! A local SOCKS5 relay in front of a ranked, rotating pool of upstream
//! SOCKS5 proxies: the pool's bookkeeping, the proxy-list file format and the
//! SOCKS5 session protocol, with their contracts.
pub mod config;
pub mod proxy_list;
pub mod entry;
pub mod pool;
pub mod session;
pub mod sources;

pub use config::Config;
pub use entry::ProxyEntry;
pub use pool::ProxyPool;
