//! Pool accounting: the bound, waiting when saturated, reuse after release,
//! discard of broken connections, and the per-URL pool set.

use describe_cache::AcquireDecision;
use describe_cache::ConnectionPool;
use describe_cache::PoolSet;
use describe_cache::PooledConnection;

const URL: &str = "postgres://localhost:5432/app";

fn expect_connect(d: AcquireDecision) -> PooledConnection {
    match d {
        AcquireDecision::Connect(c) => c,
        AcquireDecision::Reuse(_) => panic!("expected a fresh connection, got a reused one"),
        AcquireDecision::Wait => panic!("expected a fresh connection, got an order to wait"),
    }
}

fn expect_reuse(d: AcquireDecision) -> PooledConnection {
    match d {
        AcquireDecision::Reuse(c) => c,
        AcquireDecision::Connect(_) => panic!("expected a reused connection, got a fresh one"),
        AcquireDecision::Wait => panic!("expected a reused connection, got an order to wait"),
    }
}

#[test]
fn pool_bound_with_five_requests_on_two_slots() {
    // Pool maximum 2; five concurrent distinct-query requests on one URL.
    let mut pool = ConnectionPool::new(URL, 2);
    let c1 = expect_connect(pool.try_acquire());
    let c2 = expect_connect(pool.try_acquire());
    assert_eq!(pool.live_count(), 2);
    assert_eq!(pool.max_size(), 2);

    // The remaining three can only wait; never a third live connection.
    for _ in 0..3 {
        assert!(matches!(pool.try_acquire(), AcquireDecision::Wait));
        assert_eq!(pool.live_count(), 2);
    }

    // As connections free, the waiting requests complete, one per release.
    let mut done = 2;
    let mut held = vec![c1, c2];
    while done < 5 {
        let back = held.pop().unwrap();
        pool.release(back, false);
        let next = expect_reuse(pool.try_acquire());
        assert!(pool.live_count() <= 2);
        held.push(next);
        done += 1;
    }
    assert_eq!(done, 5);
}

#[test]
fn released_connection_is_reused_not_reopened() {
    let mut pool = ConnectionPool::new(URL, 4);
    let c1 = expect_connect(pool.try_acquire());
    let id1 = c1.id();
    assert_eq!(c1.url(), URL);
    pool.release(c1, false);
    assert_eq!(pool.live_count(), 1);
    let again = expect_reuse(pool.try_acquire());
    assert_eq!(again.id(), id1);
    assert!(pool.is_borrowed(id1));
    pool.release(again, false);
    assert!(!pool.is_borrowed(id1));
}

#[test]
fn broken_connection_is_discarded_and_replaced() {
    let mut pool = ConnectionPool::new(URL, 1);
    let c1 = expect_connect(pool.try_acquire());
    let id1 = c1.id();
    assert_eq!(pool.live_count(), 1);
    // Broken on release: discarded, accounting decrements.
    pool.release(c1, true);
    assert_eq!(pool.live_count(), 0);
    // The next acquire may open a replacement, with a fresh identifier.
    let c2 = expect_connect(pool.try_acquire());
    assert_ne!(c2.id(), id1);
    assert_eq!(pool.live_count(), 1);
}

#[test]
fn failed_connect_frees_the_slot() {
    let mut pool = ConnectionPool::new(URL, 1);
    let c1 = expect_connect(pool.try_acquire());
    // The caller could not open the wire session: report it broken; the
    // slot frees and a future acquire may try again.
    pool.release(c1, true);
    let c2 = expect_connect(pool.try_acquire());
    assert_eq!(pool.live_count(), 1);
    pool.release(c2, false);
}

#[test]
fn pool_set_keeps_one_pool_per_url() {
    let mut pools = PoolSet::new(2);
    let other = "postgres://replica:5432/app";

    // First use of a URL creates its pool lazily.
    let mut p1 = pools.take_pool(URL);
    assert_eq!(p1.live_count(), 0);
    let c = expect_connect(p1.try_acquire());
    let id = c.id();
    p1.release(c, false);
    pools.put_pool(p1);

    // A different URL gets its own pool.
    let p2 = pools.take_pool(other);
    assert_eq!(p2.live_count(), 0);
    pools.put_pool(p2);

    // Taking the first URL again returns the very same pool, idle
    // connection included.
    let mut p1_again = pools.take_pool(URL);
    assert_eq!(p1_again.live_count(), 1);
    let c_again = expect_reuse(p1_again.try_acquire());
    assert_eq!(c_again.id(), id);
    p1_again.release(c_again, false);
    pools.put_pool(p1_again);
}
