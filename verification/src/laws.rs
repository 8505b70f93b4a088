//! The laws of the cache state machine, proved over every interleaving of
//! its transitions. The driver that serves concurrent call sites may apply
//! `begin`, `complete_ok` and `complete_err` in any order from any thread;
//! these lemmas hold of every such schedule.

use vstd::prelude::*;
use crate::cache::EntryModel;
use crate::cache::BeginOutcomeModel;
use crate::cache::begin_outcome_model;
use crate::cache::after_begin;
use crate::cache::after_resolve;
use crate::cache::after_fail;
use crate::description::DescriptionModel;

verus! {

/// One cache transition, at the model level: a keyed lookup, a successful
/// completion of the in-flight exchange for a key, or a failed one.
pub enum CacheEvent {
    Begin((Seq<char>, Seq<char>)),
    Resolve((Seq<char>, Seq<char>), DescriptionModel),
    Fail((Seq<char>, Seq<char>)),
}

/// The key an event concerns.
pub open spec fn event_key(e: CacheEvent) -> (Seq<char>, Seq<char>) {
    match e {
        CacheEvent::Begin(k) => k,
        CacheEvent::Resolve(k, d) => k,
        CacheEvent::Fail(k) => k,
    }
}

/// The cache state after one event. A completion applies only to a key
/// whose exchange is in flight, exactly as the exec transitions require.
pub open spec fn cache_step(
    m: Map<(Seq<char>, Seq<char>), EntryModel>,
    e: CacheEvent,
) -> Map<(Seq<char>, Seq<char>), EntryModel> {
    match e {
        CacheEvent::Begin(k) => after_begin(m, k),
        CacheEvent::Resolve(k, d) => if m.contains_key(k) && m[k] is InFlight {
            after_resolve(m, k, d)
        } else {
            m
        },
        CacheEvent::Fail(k) => if m.contains_key(k) && m[k] is InFlight {
            after_fail(m, k)
        } else {
            m
        },
    }
}

/// The cache state after a schedule of events.
pub open spec fn cache_run(
    m: Map<(Seq<char>, Seq<char>), EntryModel>,
    es: Seq<CacheEvent>,
) -> Map<(Seq<char>, Seq<char>), EntryModel>
    decreases es.len(),
{
    if es.len() == 0 {
        m
    } else {
        cache_run(cache_step(m, es[0]), es.subrange(1, es.len() as int))
    }
}

/// An event is a flight start when it is a lookup of `k` that finds no
/// entry: the one case in which a caller is ordered to perform the network
/// exchange.
pub open spec fn is_flight_start(
    m: Map<(Seq<char>, Seq<char>), EntryModel>,
    e: CacheEvent,
    k: (Seq<char>, Seq<char>),
) -> bool {
    e == CacheEvent::Begin(k) && !m.contains_key(k)
}

/// How many events of a schedule order a network exchange for `k`.
pub open spec fn flight_starts(
    m: Map<(Seq<char>, Seq<char>), EntryModel>,
    es: Seq<CacheEvent>,
    k: (Seq<char>, Seq<char>),
) -> nat
    decreases es.len(),
{
    if es.len() == 0 {
        0
    } else {
        (if is_flight_start(m, es[0], k) {
            1nat
        } else {
            0nat
        }) + flight_starts(cache_step(m, es[0]), es.subrange(1, es.len() as int), k)
    }
}

/// No event of the schedule fails the exchange for `k`.
pub open spec fn no_fail_for(es: Seq<CacheEvent>, k: (Seq<char>, Seq<char>)) -> bool {
    forall|i: int| 0 <= i < es.len() ==> (#[trigger] es[i]) != CacheEvent::Fail(k)
}

/// Single-flight: under any schedule in which the exchange for `k` does not
/// fail, at most one event ever orders a network exchange for `k` — none at
/// all once an entry for `k` exists. Concurrent first-time lookups of one
/// key therefore cause exactly one underlying describe exchange.
pub proof fn lemma_single_flight(
    m: Map<(Seq<char>, Seq<char>), EntryModel>,
    es: Seq<CacheEvent>,
    k: (Seq<char>, Seq<char>),
)
    requires
        no_fail_for(es, k),
    ensures
        flight_starts(m, es, k) <= (if m.contains_key(k) {
            0nat
        } else {
            1nat
        }),
    decreases es.len(),
{
    if es.len() > 0 {
        let e = es[0];
        let m2 = cache_step(m, e);
        let rest = es.subrange(1, es.len() as int);
        assert forall|i: int| 0 <= i < rest.len() implies (#[trigger] rest[i]) != CacheEvent::Fail(
            k,
        ) by {
            assert(rest[i] == es[i + 1]);
        }
        assert(es[0] != CacheEvent::Fail(k));
        if m.contains_key(k) {
            assert(m2.contains_key(k));
            lemma_single_flight(m2, rest, k);
        } else if is_flight_start(m, e, k) {
            assert(m2.contains_key(k));
            lemma_single_flight(m2, rest, k);
        } else {
            assert(!m2.contains_key(k));
            lemma_single_flight(m2, rest, k);
        }
    }
}

/// A resolved entry is never replaced or evicted: once `k` resolved to `d`,
/// every later state of every schedule still maps `k` to `d`. All present
/// and future requesters of `k` therefore observe the identical
/// description.
pub proof fn lemma_resolved_stable(
    m: Map<(Seq<char>, Seq<char>), EntryModel>,
    es: Seq<CacheEvent>,
    k: (Seq<char>, Seq<char>),
    d: DescriptionModel,
)
    requires
        m.contains_key(k),
        m[k] == EntryModel::Resolved(d),
    ensures
        cache_run(m, es).contains_key(k),
        cache_run(m, es)[k] == EntryModel::Resolved(d),
    decreases es.len(),
{
    if es.len() > 0 {
        let e = es[0];
        let m2 = cache_step(m, e);
        assert(m2.contains_key(k) && m2[k] == EntryModel::Resolved(d));
        lemma_resolved_stable(m2, es.subrange(1, es.len() as int), k, d);
    }
}

/// Idempotence of cache hits: once the key `k` has resolved to `d`, a
/// lookup of `k` answers with that very description and changes nothing —
/// in particular it never orders a network exchange.
pub proof fn lemma_cache_hit_idempotent(
    m: Map<(Seq<char>, Seq<char>), EntryModel>,
    k: (Seq<char>, Seq<char>),
    d: DescriptionModel,
)
    ensures
        begin_outcome_model(after_resolve(m, k, d), k) == BeginOutcomeModel::Hit(d),
        after_begin(after_resolve(m, k, d), k) == after_resolve(m, k, d),
{
}

/// Key exactness: two query texts that differ at all — if only in
/// whitespace or comments — form distinct keys, and no event on the one key
/// changes what a lookup of the other answers.
pub proof fn lemma_key_exactness(
    m: Map<(Seq<char>, Seq<char>), EntryModel>,
    url: Seq<char>,
    q1: Seq<char>,
    q2: Seq<char>,
    e: CacheEvent,
)
    requires
        q1 != q2,
        event_key(e) == (url, q1),
    ensures
        begin_outcome_model(cache_step(m, e), (url, q2)) == begin_outcome_model(m, (url, q2)),
{
    assert((url, q1) != (url, q2));
}

/// Failure non-memoization: when a first-time lookup of `k` starts an
/// exchange and the exchange fails, the cache returns to exactly its prior
/// state, and a later lookup of `k` starts a fresh exchange.
pub proof fn lemma_failure_not_memoized(
    m: Map<(Seq<char>, Seq<char>), EntryModel>,
    k: (Seq<char>, Seq<char>),
)
    requires
        !m.contains_key(k),
    ensures
        begin_outcome_model(m, k) is StartFlight,
        after_fail(after_begin(m, k), k) == m,
        begin_outcome_model(after_fail(after_begin(m, k), k), k) is StartFlight,
{
    assert(after_fail(after_begin(m, k), k) =~= m);
}

} // verus!
