use snap7::client::pool::{Acquire, IdlePool, PoolConfig};

fn cfg(max: usize) -> PoolConfig {
    PoolConfig { max_size: max, connect_timeout_ms: 100 }
}

#[test]
fn pool_config_defaults_are_sane() {
    let c = PoolConfig::default();
    assert!(c.max_size >= 1);
    assert!(c.connect_timeout_ms > 0);
}

#[test]
fn pool_config_max_size() {
    let c = cfg(4);
    assert_eq!(c.max_size, 4);
}

#[test]
fn pool_reuses_returned_connections_oldest_first() {
    let mut p: IdlePool<u32> = IdlePool::new(cfg(2));
    assert!(matches!(p.acquire(), Acquire::Connect));
    assert!(matches!(p.acquire(), Acquire::Connect));
    assert!(matches!(p.acquire(), Acquire::Wait));
    p.give_back(10);
    p.give_back(20);
    assert_eq!(p.lent_count(), 0);
    assert!(matches!(p.acquire(), Acquire::Reuse(10)));
    assert!(matches!(p.acquire(), Acquire::Reuse(20)));
    assert!(matches!(p.acquire(), Acquire::Wait));
}

#[test]
fn pool_failed_connect_frees_its_place() {
    let mut p: IdlePool<u32> = IdlePool::new(cfg(1));
    assert!(matches!(p.acquire(), Acquire::Connect));
    assert!(matches!(p.acquire(), Acquire::Wait));
    p.connect_failed();
    assert_eq!(p.lent_count(), 0);
    assert!(matches!(p.acquire(), Acquire::Connect));
    assert_eq!(p.idle_count(), 0);
}
