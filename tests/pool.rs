use std::time::Instant;

use lokipool::entry::{rank_reports, Measurement, ProbeReport};
use lokipool::pool::{Candidates, LoadError};
use lokipool::proxy_list::parse_proxy_list;
use lokipool::{Config, ProxyEntry, ProxyPool};

const MS: u64 = 1_000_000;

fn ok(candidate: usize, ms: u64) -> ProbeReport {
    ProbeReport {
        candidate,
        measured: Some(Measurement { latency_ns: ms * MS, checked_at: Instant::now() }),
    }
}

fn failed(candidate: usize) -> ProbeReport {
    ProbeReport { candidate, measured: None }
}

fn addresses(entries: &[ProxyEntry]) -> Vec<String> {
    entries.iter().map(|e| e.address.clone()).collect()
}

fn current(pool: &ProxyPool) -> String {
    pool.get_current_proxy().expect("an entry").address
}

/// A pool holding A, B, C at 50, 100 and 150 ms, reported in another order.
fn pool_abc() -> (ProxyPool, String) {
    let mut pool = ProxyPool::new(Config::default());
    let cands = Candidates::from_text("A\nB\nC").unwrap();
    let text = pool.finish_load(&cands, &vec![ok(2, 150), ok(0, 50), ok(1, 100)]);
    (pool, text)
}

#[test]
fn load_ranks_by_latency() {
    let (pool, text) = pool_abc();
    assert_eq!(addresses(&pool.list_proxies()), vec!["A", "B", "C"]);
    assert_eq!(text, "A\nB\nC");
    assert_eq!(current(&pool), "A");
    let lat: Vec<u64> = pool.list_proxies().iter().map(|e| e.latency_ms()).collect();
    assert_eq!(lat, vec![50, 100, 150]);
    assert!(pool.list_proxies().iter().all(|e| e.fail_count == 0));
}

#[test]
fn rotation_under_load() {
    let (mut pool, _) = pool_abc();
    assert_eq!(pool.next_proxy().unwrap().address, "B");
    assert_eq!(pool.next_proxy().unwrap().address, "C");
    assert_eq!(current(&pool), "C");
    assert_eq!(pool.choose_proxy(1).unwrap().address, "A");
    assert_eq!(current(&pool), "A");
    // B stops answering; a health cycle drops it.
    let checked = pool.health_candidates().unwrap();
    assert_eq!(checked.addresses(), vec!["A", "B", "C"]);
    let text = pool.finish_health_check(&checked, &vec![ok(0, 50), failed(1), ok(2, 150)]);
    assert_eq!(text.as_deref(), Some("A\nC"));
    assert_eq!(addresses(&pool.list_proxies()), vec!["A", "C"]);
    assert_eq!(current(&pool), "A");
}

#[test]
fn health_check_clamps_the_selection() {
    let (mut pool, _) = pool_abc();
    pool.choose_proxy(3);
    assert_eq!(current(&pool), "C");
    let checked = pool.health_candidates().unwrap();
    pool.finish_health_check(&checked, &vec![ok(1, 20), ok(0, 30), failed(2)]);
    assert_eq!(addresses(&pool.list_proxies()), vec!["B", "A"]);
    assert_eq!(current(&pool), "A");
}

#[test]
fn health_check_that_drops_everything() {
    let (mut pool, _) = pool_abc();
    pool.next_proxy();
    let checked = pool.health_candidates().unwrap();
    let text = pool.finish_health_check(&checked, &vec![failed(0), failed(1), failed(2)]);
    assert_eq!(text, None);
    assert!(pool.list_proxies().is_empty());
    assert!(pool.get_current_proxy().is_none());
    assert!(pool.health_candidates().is_none());
}

#[test]
fn file_rewrite_after_load() {
    let mut pool = ProxyPool::new(Config::default());
    let cands = Candidates::from_text("X\nY\nZ\nY").unwrap();
    assert_eq!(cands.len(), 3);
    assert_eq!(cands.addresses(), vec!["X", "Y", "Z"]);
    let text = pool.finish_load(&cands, &vec![failed(1), ok(0, 80), ok(2, 40)]);
    assert_eq!(text, "Z\nX");
    assert_eq!(addresses(&pool.list_proxies()), vec!["Z", "X"]);
    assert_eq!(parse_proxy_list(&text), vec!["Z", "X"]);
}

#[test]
fn load_of_an_empty_file_fails() {
    assert_eq!(Candidates::from_text("").err(), Some(LoadError::EmptyProxyFile));
    assert_eq!(Candidates::from_text(" \n\r\n\t").err(), Some(LoadError::EmptyProxyFile));
}

#[test]
fn load_with_no_reachable_candidate() {
    let mut pool = ProxyPool::new(Config::default());
    let cands = Candidates::from_text("a:1\nb:2").unwrap();
    let text = pool.finish_load(&cands, &vec![failed(1), failed(0)]);
    assert_eq!(text, "");
    assert!(pool.get_current_proxy().is_none());
}

#[test]
fn load_resets_the_selection() {
    let (mut pool, _) = pool_abc();
    pool.choose_proxy(3);
    let cands = Candidates::from_text("A\nB\nC").unwrap();
    pool.finish_load(&cands, &vec![ok(0, 5), ok(1, 6), ok(2, 7)]);
    assert_eq!(current(&pool), "A");
}

#[test]
fn empty_pool_gives_nothing() {
    let mut pool = ProxyPool::new(Config::default());
    assert!(pool.get_current_proxy().is_none());
    assert!(pool.next_proxy().is_none());
    assert!(pool.choose_proxy(1).is_none());
    assert!(pool.choose_proxy(0).is_none());
    assert!(pool.list_proxies().is_empty());
    assert!(pool.health_candidates().is_none());
}

#[test]
fn rotation_wraps_around() {
    let (mut pool, _) = pool_abc();
    // From index 0, seven steps on three entries land on index 1.
    for _ in 0..7 {
        pool.next_proxy();
    }
    assert_eq!(current(&pool), "B");
}

#[test]
fn selection_counts_from_one_and_wraps() {
    let (mut pool, _) = pool_abc();
    assert_eq!(pool.choose_proxy(2).unwrap().address, "B");
    assert_eq!(pool.choose_proxy(5).unwrap().address, "B");
    assert_eq!(pool.choose_proxy(3).unwrap().address, "C");
    assert_eq!(pool.choose_proxy(4).unwrap().address, "A");
    // 0 maps to the last entry: (0 - 1) mod 3 = 2.
    assert_eq!(pool.choose_proxy(0).unwrap().address, "C");
}

#[test]
fn ranking_breaks_ties_by_report_order() {
    let cands: Vec<String> = ["p", "q", "r", "s"].iter().map(|s| s.to_string()).collect();
    let ranked = rank_reports(&cands, &vec![ok(3, 10), ok(1, 5), ok(0, 10), ok(2, 5)]);
    assert_eq!(addresses(&ranked), vec!["q", "r", "s", "p"]);
}

#[test]
fn ranking_ignores_repeats_and_strangers() {
    let cands: Vec<String> = ["p", "q"].iter().map(|s| s.to_string()).collect();
    let ranked = rank_reports(&cands, &vec![failed(0), ok(0, 9), ok(0, 1), ok(7, 1), ok(1, 3)]);
    assert_eq!(addresses(&ranked), vec!["q", "p"]);
    assert_eq!(ranked[1].latency_ns, 9 * MS);
}

#[test]
fn config_and_file_path() {
    let pool = ProxyPool::new(Config::default());
    assert_eq!(pool.proxy_file(), "proxies.txt");
    assert_eq!(pool.get_config().proxy.max_concurrency, 100);
}

#[test]
fn snapshot_copies_an_entry() {
    let (pool, _) = pool_abc();
    let e = pool.get_current_proxy().unwrap();
    let c = e.snapshot();
    assert_eq!(c.address, e.address);
    assert_eq!(c.latency_ns, e.latency_ns);
    assert_eq!(c.last_check, e.last_check);
}
