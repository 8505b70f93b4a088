//! The cache state machine: hits, single-flight, key exactness, failure
//! non-memoization.

use describe_cache::BeginOutcome;
use describe_cache::ColumnDescriptor;
use describe_cache::DescribeCache;
use describe_cache::Description;
use describe_cache::Nullability;
use describe_cache::TypeIdentity;

const URL: &str = "postgres://localhost:5432/app";
const QUERY: &str = "SELECT id, name FROM users WHERE id = $1";

fn users_description() -> Description {
    Description::new(
        vec![TypeIdentity { tag: 23 }],
        vec![
            ColumnDescriptor {
                name: "id".to_string(),
                type_identity: TypeIdentity { tag: 23 },
                nullability: Nullability::NotNull,
            },
            ColumnDescriptor {
                name: "name".to_string(),
                type_identity: TypeIdentity { tag: 25 },
                nullability: Nullability::Nullable,
            },
        ],
    )
}

#[test]
fn scenario_first_describe_then_cached_hit() {
    let mut cache = DescribeCache::new();
    // First call: miss, the caller must perform the exchange.
    let first = cache.begin(URL, QUERY);
    assert!(matches!(first, BeginOutcome::StartFlight));

    let described = users_description();
    assert_eq!(described.parameters.len(), 1);
    assert_eq!(described.parameters[0].position, 1);
    assert_eq!(described.parameters[0].type_identity, TypeIdentity { tag: 23 });
    assert_eq!(described.parameters[0].nullability, Nullability::Unknown);
    cache.complete_ok(URL, QUERY, &described);

    // Second identical call: a hit with the equal description and no order
    // to touch the network.
    let second = cache.begin(URL, QUERY);
    match second {
        BeginOutcome::Hit(d) => {
            assert!(d.equals(&described));
            assert_eq!(d.columns.len(), 2);
            assert_eq!(d.columns[0].name, "id");
            assert_eq!(d.columns[0].nullability, Nullability::NotNull);
            assert_eq!(d.columns[1].name, "name");
            assert_eq!(d.columns[1].type_identity, TypeIdentity { tag: 25 });
            assert_eq!(d.columns[1].nullability, Nullability::Nullable);
        }
        _ => panic!("second call must be a hit"),
    }
}

#[test]
fn single_flight_among_eight_callers() {
    let mut cache = DescribeCache::new();
    // Eight callers race on one never-seen key: exactly one is ordered to
    // perform the exchange, the other seven wait on it.
    let mut starts = 0;
    let mut waits = 0;
    for _ in 0..8 {
        match cache.begin(URL, QUERY) {
            BeginOutcome::StartFlight => starts += 1,
            BeginOutcome::AwaitFlight => waits += 1,
            BeginOutcome::Hit(_) => panic!("nothing resolved yet"),
        }
    }
    assert_eq!(starts, 1);
    assert_eq!(waits, 7);

    let described = users_description();
    cache.complete_ok(URL, QUERY, &described);

    // All eight now observe the identical description.
    for _ in 0..8 {
        match cache.begin(URL, QUERY) {
            BeginOutcome::Hit(d) => assert!(d.equals(&described)),
            _ => panic!("resolved key must hit"),
        }
    }
}

#[test]
fn key_exactness_no_normalization() {
    let mut cache = DescribeCache::new();
    let q1 = "SELECT 1";
    let q2 = "SELECT  1";
    let q3 = "SELECT 1 -- same statement";
    assert!(matches!(cache.begin(URL, q1), BeginOutcome::StartFlight));
    // Whitespace and comment variants are distinct keys: each is a fresh
    // miss, none an await on the first.
    assert!(matches!(cache.begin(URL, q2), BeginOutcome::StartFlight));
    assert!(matches!(cache.begin(URL, q3), BeginOutcome::StartFlight));
    assert!(cache.contains_entry(URL, q1));
    assert!(cache.contains_entry(URL, q2));
    assert!(cache.contains_entry(URL, q3));
    // Distinct URLs are distinct keys too.
    assert!(!cache.contains_entry("postgres://other:5432/app", q1));
}

#[test]
fn failure_leaves_no_entry_and_later_call_starts_fresh() {
    let mut cache = DescribeCache::new();
    let url = "postgres://unreachable:1/app";
    // The exchange fails (unreachable host): the in-flight marker goes away
    // and nothing is stored. Nobody else waited on it.
    assert!(matches!(cache.begin(url, QUERY), BeginOutcome::StartFlight));
    assert_eq!(cache.complete_err(url, QUERY), 0);
    assert!(!cache.contains_entry(url, QUERY));
    assert!(cache.get_resolved(url, QUERY).is_none());

    // Once the host is reachable, the same key starts fresh and then caches.
    assert!(matches!(cache.begin(url, QUERY), BeginOutcome::StartFlight));
    let described = users_description();
    cache.complete_ok(url, QUERY, &described);
    match cache.get_resolved(url, QUERY) {
        Some(d) => assert!(d.equals(&described)),
        None => panic!("resolved entry expected"),
    }
}

#[test]
fn failed_flight_counts_its_waiters() {
    let mut cache = DescribeCache::new();
    // One starter, three waiters on the same key.
    assert!(matches!(cache.begin(URL, QUERY), BeginOutcome::StartFlight));
    for _ in 0..3 {
        assert!(matches!(cache.begin(URL, QUERY), BeginOutcome::AwaitFlight));
    }
    // The exchange fails: the starter learns exactly how many waiters the
    // one failure must be handed to, and the key is left uncached.
    assert_eq!(cache.complete_err(URL, QUERY), 3);
    assert!(!cache.contains_entry(URL, QUERY));
}

#[test]
fn get_resolved_is_none_while_in_flight() {
    let mut cache = DescribeCache::new();
    assert!(cache.get_resolved(URL, QUERY).is_none());
    assert!(matches!(cache.begin(URL, QUERY), BeginOutcome::StartFlight));
    assert!(cache.get_resolved(URL, QUERY).is_none());
    assert!(cache.contains_entry(URL, QUERY));
}

#[test]
fn description_equality_is_exact() {
    let a = users_description();
    let b = users_description();
    assert!(a.equals(&b));
    assert!(a.duplicate().equals(&a));

    let mut other = users_description();
    other.columns[1].nullability = Nullability::Unknown;
    assert!(!a.equals(&other));

    let fewer = Description::new(vec![], vec![]);
    assert!(!a.equals(&fewer));
    assert!(fewer.equals(&fewer.duplicate()));
}
