//! The process-wide registry of describe facilities: one cache (with the
//! pools it owns) per dialect, created lazily the first time that dialect's
//! describe path is exercised and kept until process exit. The registry is
//! an explicit object behind a narrow accessor, so initialization stays
//! testable rather than ambient.

use vstd::prelude::*;
use crate::cache::DescribeCache;
use crate::cache::EntryModel;
use crate::kind::AnyKind;
use crate::pool::PoolModel;
use crate::pool::PoolSet;

verus! {

/// The describe facility of one dialect: its description cache and the
/// connection pools the cache owns, one per distinct URL seen.
pub struct CachingDescribeBlocking {
    pub cache: DescribeCache,
    pub pools: PoolSet,
}

impl CachingDescribeBlocking {
    /// Sanity of both components.
    pub open spec fn wf(&self) -> bool {
        &&& self.cache.wf()
        &&& self.pools.wf()
    }

    /// A fresh facility: nothing cached, no URL seen, pools to be bounded
    /// by `default_pool_max`.
    pub fn new(default_pool_max: usize) -> (c: CachingDescribeBlocking)
        requires
            default_pool_max >= 1,
        ensures
            c.wf(),
            c.cache@ == Map::<(Seq<char>, Seq<char>), EntryModel>::empty(),
            c.pools@ == Map::<Seq<char>, PoolModel>::empty(),
            c.pools.spec_default_max() == default_pool_max,
    {
        CachingDescribeBlocking {
            cache: DescribeCache::new(),
            pools: PoolSet::new(default_pool_max),
        }
    }
}

/// One describe facility per dialect, created lazily on first checkout.
pub struct DescribeCacheRegistry {
    postgres: Option<CachingDescribeBlocking>,
}

impl DescribeCacheRegistry {
    /// The facility stored for a dialect, if created.
    pub closed spec fn instance(&self, kind: AnyKind) -> Option<CachingDescribeBlocking> {
        match kind {
            AnyKind::Postgres => self.postgres,
        }
    }

    /// Every stored facility is well-formed.
    pub open spec fn wf(&self) -> bool {
        forall|k: AnyKind| (#[trigger] self.instance(k)) matches Some(c) ==> c.wf()
    }

    /// An empty registry: no dialect's facility created yet.
    pub fn new() -> (r: DescribeCacheRegistry)
        ensures
            r.wf(),
            forall|k: AnyKind| #[trigger] r.instance(k) is None,
    {
        DescribeCacheRegistry { postgres: None }
    }

    /// Check out the facility of a dialect, creating it the first time this
    /// dialect is used. Until it is checked back in, the registry holds
    /// none for this dialect.
    pub fn checkout(&mut self, kind: AnyKind, default_pool_max: usize) -> (c:
        CachingDescribeBlocking)
        requires
            old(self).wf(),
            default_pool_max >= 1,
        ensures
            final(self).wf(),
            c.wf(),
            final(self).instance(kind) is None,
            forall|k: AnyKind| k != kind ==> #[trigger] final(self).instance(k) == old(
                self,
            ).instance(k),
            old(self).instance(kind) matches Some(c0) ==> c == c0,
            old(self).instance(kind) is None ==> c.cache@ == Map::<
                (Seq<char>, Seq<char>),
                EntryModel,
            >::empty() && c.pools@ == Map::<Seq<char>, PoolModel>::empty()
                && c.pools.spec_default_max() == default_pool_max,
    {
        match kind {
            AnyKind::Postgres => match self.postgres.take() {
                Some(c) => c,
                None => CachingDescribeBlocking::new(default_pool_max),
            },
        }
    }

    /// Check a dialect's facility back in.
    pub fn checkin(&mut self, kind: AnyKind, c: CachingDescribeBlocking)
        requires
            old(self).wf(),
            c.wf(),
            old(self).instance(kind) is None,
        ensures
            final(self).wf(),
            final(self).instance(kind) == Some(c),
            forall|k: AnyKind| k != kind ==> #[trigger] final(self).instance(k) == old(
                self,
            ).instance(k),
    {
        match kind {
            AnyKind::Postgres => {
                self.postgres = Some(c);
            },
        }
    }
}

} // verus!
