//! Compile-time query description cache.
//!
//! A build-time facility that determines the parameter and result-column
//! shape of a SQL statement against a live database ("describe"), and
//! memoizes the outcome per (connection URL, exact query text) so that a
//! build with many call sites performs each network exchange at most once.
//!
//! The library holds the verified core: the description data model, the
//! cache state machine with its single-flight discipline, the bounded
//! connection-pool accounting, the dialect identity, and the parsed driver
//! configuration. The asynchronous plumbing that drives a live connection
//! lives outside it and feeds events into these state machines.

mod cache;
mod config;
mod description;
mod error;
mod kind;
mod laws;
mod pool;
mod registry;
mod text;

pub use cache::BeginOutcome;
pub use cache::BeginOutcomeModel;
pub use cache::CacheEntry;
pub use cache::DescribeCache;
pub use cache::EntryModel;
pub use cache::QueryKey;
pub use cache::after_begin;
pub use cache::after_fail;
pub use cache::after_resolve;
pub use cache::begin_outcome_model;
pub use cache::begin_outcome_of;
pub use cache::bump_waiters;
pub use cache::entry_model;
pub use laws::CacheEvent;
pub use laws::cache_run;
pub use laws::cache_step;
pub use laws::event_key;
pub use laws::flight_starts;
pub use laws::is_flight_start;
pub use laws::lemma_cache_hit_idempotent;
pub use laws::lemma_failure_not_memoized;
pub use laws::lemma_key_exactness;
pub use laws::lemma_resolved_stable;
pub use laws::lemma_single_flight;
pub use laws::no_fail_for;
pub use config::Config;
pub use config::ExternalDriverConfig;
pub use config::PgConfig;
pub use error::DescribeFailure;
pub use error::FailureKind;
pub use kind::AnyKind;
pub use kind::DialectRegistration;
pub use kind::has_prefix;
pub use kind::postgres_registration;
pub use kind::str_has_prefix;
pub use kind::unrecognized_url_message;
pub use kind::unrecognized_url_text;
pub use registry::CachingDescribeBlocking;
pub use registry::DescribeCacheRegistry;
pub use pool::AcquireDecision;
pub use pool::AcquireDecisionModel;
pub use pool::ConnectionPool;
pub use pool::PoolModel;
pub use pool::PoolSet;
pub use pool::PooledConnection;
pub use pool::acquire_decision_model;
pub use pool::acquire_decision_of;
pub use pool::after_acquire;
pub use pool::after_release;
pub use pool::PoolEvent;
pub use pool::lemma_freed_connection_reusable;
pub use pool::lemma_pool_bound;
pub use pool::lemma_pool_bound_always;
pub use pool::lemma_saturated_pool_waits;
pub use pool::pool_run;
pub use pool::pool_step;
pub use pool::live;
pub use pool::pool_wf;
pub use text::Text;
pub use description::ColumnModel;
pub use description::DescriptionModel;
pub use description::string_eq;
pub use description::Description;
pub use description::ParameterDescriptor;
pub use description::ColumnDescriptor;
pub use description::TypeIdentity;
pub use description::Nullability;
