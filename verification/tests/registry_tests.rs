//! The per-dialect registry and the full describe flow: checkout, keyed
//! lookup, pool acquire, completion, checkin — and the cached second call
//! that never touches pool or network.

use describe_cache::AcquireDecision;
use describe_cache::AnyKind;
use describe_cache::BeginOutcome;
use describe_cache::ColumnDescriptor;
use describe_cache::DescribeCacheRegistry;
use describe_cache::Description;
use describe_cache::Nullability;
use describe_cache::TypeIdentity;

const URL: &str = "postgres://localhost:5432/app";
const QUERY: &str = "SELECT id, name FROM users WHERE id = $1";

fn users_description() -> Description {
    Description::new(
        vec![TypeIdentity { tag: 23 }],
        vec![
            ColumnDescriptor {
                name: "id".to_string(),
                type_identity: TypeIdentity { tag: 23 },
                nullability: Nullability::NotNull,
            },
            ColumnDescriptor {
                name: "name".to_string(),
                type_identity: TypeIdentity { tag: 25 },
                nullability: Nullability::Nullable,
            },
        ],
    )
}

#[test]
fn registry_creates_lazily_and_keeps_the_instance() {
    let mut registry = DescribeCacheRegistry::new();

    // First use creates a fresh facility.
    let mut facility = registry.checkout(AnyKind::Postgres, 4);
    assert!(!facility.cache.contains_entry(URL, QUERY));
    assert!(matches!(facility.cache.begin(URL, QUERY), BeginOutcome::StartFlight));
    let described = users_description();
    facility.cache.complete_ok(URL, QUERY, &described);
    registry.checkin(AnyKind::Postgres, facility);

    // The next checkout hands back the same instance, cache contents and
    // all.
    let again = registry.checkout(AnyKind::Postgres, 4);
    assert!(again.cache.contains_entry(URL, QUERY));
    match again.cache.get_resolved(URL, QUERY) {
        Some(d) => assert!(d.equals(&described)),
        None => panic!("the resolved entry must persist across checkouts"),
    }
    registry.checkin(AnyKind::Postgres, again);
}

#[test]
fn full_describe_flow_then_cached_hit_without_pool_activity() {
    let mut registry = DescribeCacheRegistry::new();
    let mut facility = registry.checkout(AnyKind::Postgres, 2);

    // Miss: this caller performs the exchange over a pooled connection.
    assert!(matches!(facility.cache.begin(URL, QUERY), BeginOutcome::StartFlight));
    let mut pool = facility.pools.take_pool(URL);
    let conn = match pool.try_acquire() {
        AcquireDecision::Connect(c) => c,
        _ => panic!("an empty pool must order a fresh connection"),
    };
    assert_eq!(conn.url(), URL);
    // (the wire exchange happens here, outside the model)
    let described = users_description();
    pool.release(conn, false);
    facility.pools.put_pool(pool);
    facility.cache.complete_ok(URL, QUERY, &described);

    // Hit: the second identical call returns the equal description and
    // neither acquires a connection nor opens one.
    match facility.cache.begin(URL, QUERY) {
        BeginOutcome::Hit(d) => assert!(d.equals(&described)),
        _ => panic!("the resolved key must hit"),
    }
    let pool_again = facility.pools.take_pool(URL);
    assert_eq!(pool_again.live_count(), 1);
    facility.pools.put_pool(pool_again);
    registry.checkin(AnyKind::Postgres, facility);
}
