use lokipool::Config;

#[test]
fn default_config_values() {
    let c = Config::default();
    assert_eq!(c.server.bind_host, "127.0.0.1");
    assert_eq!(c.server.bind_port, 1080);
    assert_eq!(c.server.max_connections, 100);
    assert_eq!(c.proxy.proxy_file, "proxies.txt");
    assert_eq!(c.proxy.test_timeout, 5);
    assert!(c.proxy.health_check_switch);
    assert_eq!(c.proxy.health_check_interval, 300);
    assert_eq!(c.proxy.retry_times, 3);
    assert!(!c.proxy.auto_switch);
    assert_eq!(c.proxy.switch_interval, 300);
    assert_eq!(c.proxy.max_concurrency, 100);
    assert!(!c.proxy.use_auth);
    assert!(c.proxy.username.is_empty());
    assert!(c.proxy.password.is_empty());
    assert!(!c.log.show_connection_log);
    assert!(!c.log.show_error_log);
    assert!(!c.fofa.switch);
    assert_eq!(c.fofa.size, 10000);
    assert_eq!(c.quake.size, 500);
    assert_eq!(c.hunter.size, 4);
    assert_eq!(c.hunter.api_url, "https://hunter.qianxin.com/openApi/search");
}

#[test]
fn bind_info_is_host_and_port() {
    let c = Config::default();
    assert_eq!(c.server.bind_info(), ("127.0.0.1".to_string(), 1080));
}
