use std::sync::Mutex;

use singleton_sort::connection_pool::ConnectionPool;

#[test]
fn test_pool_initialization() {
    let pool = ConnectionPool::new("MainPool", 10);
    assert_eq!(pool.get_pool_name(), "MainPool");
    assert_eq!(pool.get_active_connections(), 0);
}

#[test]
fn test_pool_acquire_release() {
    let shared = Mutex::new(ConnectionPool::new("MainPool", 10));
    {
        let mut pool = shared.lock().unwrap();
        assert!(pool.acquire_connection().is_ok());
        assert_eq!(pool.get_active_connections(), 1);
    }

    {
        let mut pool = shared.lock().unwrap();
        pool.release_connection();
        assert_eq!(pool.get_active_connections(), 0);
    }
}

#[test]
fn test_pool_max_connections() {
    let shared = Mutex::new(ConnectionPool::new("MainPool", 10));
    {
        let mut pool = shared.lock().unwrap();
        while pool.get_active_connections() > 0 {
            pool.release_connection();
        }

        for _ in 0..10 {
            assert!(pool.acquire_connection().is_ok());
        }

        assert!(pool.acquire_connection().is_err());
    }
}

#[test]
fn pool_accepts_up_to_capacity_then_frees_a_slot() {
    let mut pool = ConnectionPool::new("MainPool", 10);
    for _ in 0..10 {
        assert_eq!(pool.acquire_connection(), Ok(()));
    }
    assert_eq!(pool.get_active_connections(), 10);
    assert_eq!(
        pool.acquire_connection(),
        Err("Connection pool 'MainPool' is full".to_string())
    );
    assert_eq!(pool.get_active_connections(), 10);
    pool.release_connection();
    assert_eq!(pool.get_active_connections(), 9);
    assert!(pool.acquire_connection().is_ok());
    assert_eq!(pool.get_active_connections(), 10);
}

#[test]
fn pool_release_on_empty_pool_keeps_zero() {
    let mut pool = ConnectionPool::new("Spare", 2);
    pool.release_connection();
    assert_eq!(pool.get_active_connections(), 0);
}

#[test]
fn pool_of_capacity_zero_refuses_at_once() {
    let mut pool = ConnectionPool::new("Empty", 0);
    assert_eq!(
        pool.acquire_connection(),
        Err("Connection pool 'Empty' is full".to_string())
    );
}
