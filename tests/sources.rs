use lokipool::sources::{
    endpoint, fofa_addresses, fofa_query_url, fofa_url, hunter_addresses, hunter_query_url,
    hunter_url, merge_addresses, quake_addresses, FofaResponse, HunterData, HunterItem,
    HunterResponse, QuakeItem, QuakeResponse,
};
use lokipool::Config;

fn strings(v: &[&str]) -> Vec<String> {
    v.iter().map(|s| s.to_string()).collect()
}

#[test]
fn endpoint_formats_host_and_port() {
    assert_eq!(endpoint(&"1.2.3.4".to_string(), 1080), "1.2.3.4:1080");
    assert_eq!(endpoint(&"h".to_string(), 0), "h:0");
    assert_eq!(endpoint(&"h".to_string(), u32::MAX), "h:4294967295");
}

#[test]
fn fofa_url_with_encoded_query() {
    let mut cfg = Config::default().fofa;
    cfg.api_url = "https://f/api".to_string();
    cfg.fofa_key = "K".to_string();
    cfg.size = 10000;
    assert_eq!(fofa_query_url(&cfg, "cQ=="), "https://f/api?key=K&qbase64=cQ==&size=10000");
}

#[test]
fn fofa_url_encodes_the_query() {
    let mut cfg = Config::default().fofa;
    cfg.api_url = "u".to_string();
    cfg.fofa_key = "k".to_string();
    cfg.query_str = "abc".to_string();
    cfg.size = 5;
    assert_eq!(fofa_url(&cfg), "u?key=k&qbase64=YWJj&size=5");
    cfg.query_str = "ab".to_string();
    assert_eq!(fofa_url(&cfg), "u?key=k&qbase64=YWI=&size=5");
}

#[test]
fn hunter_url_of_a_page() {
    let mut cfg = Config::default().hunter;
    cfg.api_url = "h".to_string();
    cfg.hunter_key = "key".to_string();
    assert_eq!(hunter_query_url(&cfg, "Zg==", 3), "h?api-key=key&search=Zg==&page=3&page_size=100");
    cfg.query_str = "f".to_string();
    assert_eq!(hunter_url(&cfg, 12), "h?api-key=key&search=Zg==&page=12&page_size=100");
}

#[test]
fn fofa_answer_first_columns() {
    let resp = FofaResponse {
        error: false,
        results: vec![strings(&["a:1", "x"]), Vec::new(), strings(&["b:2"])],
    };
    assert_eq!(fofa_addresses(&resp), Some(strings(&["a:1", "b:2"])));
    let failed = FofaResponse { error: true, results: vec![strings(&["a:1"])] };
    assert_eq!(fofa_addresses(&failed), None);
}

#[test]
fn quake_answer_addresses() {
    let resp = QuakeResponse {
        code: 0,
        message: String::new(),
        data: vec![QuakeItem { ip: "1.1.1.1".to_string(), port: 1080 }, QuakeItem { ip: "h".to_string(), port: 7 }],
    };
    assert_eq!(quake_addresses(&resp), Ok(strings(&["1.1.1.1:1080", "h:7"])));
    let refused = QuakeResponse { code: 3, message: "quota".to_string(), data: Vec::new() };
    assert_eq!(quake_addresses(&refused), Err("quota".to_string()));
}

#[test]
fn hunter_answer_addresses() {
    let resp = HunterResponse {
        code: 200,
        message: String::new(),
        data: HunterData { total: 1, arr: vec![HunterItem { ip: "2.2.2.2".to_string(), port: 9050 }] },
    };
    assert_eq!(hunter_addresses(&resp), Some(strings(&["2.2.2.2:9050"])));
    let refused = HunterResponse { code: 401, message: "no".to_string(), data: HunterData { total: 0, arr: Vec::new() } };
    assert_eq!(hunter_addresses(&refused), None);
}

#[test]
fn merge_sorts_and_removes_repeats() {
    let all = strings(&["b:1", "a:2", "b:1", "c:3", "a:2", "a:10"]);
    assert_eq!(merge_addresses(&all), strings(&["a:10", "a:2", "b:1", "c:3"]));
    assert!(merge_addresses(&Vec::new()).is_empty());
}
