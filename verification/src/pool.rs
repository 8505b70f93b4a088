//! Bounded connection-pool accounting for one target URL: lazy creation up
//! to a configured maximum, exclusive borrowing, release-or-discard, and
//! the guarantee that the number of live connections never exceeds the
//! maximum.
//!
//! The pool is the accounting state machine; the live wire sessions
//! themselves are owned by the driver that feeds it, keyed by the
//! connection identifiers this pool hands out.

use vstd::prelude::*;
use vstd::string::StringExecFns;
use crate::description::string_eq;

verus! {

/// Mathematical model of a [`ConnectionPool`]: the target URL, the
/// configured maximum, the identifiers of idle and of borrowed live
/// connections, and the next fresh identifier.
#[verifier::ext_equal]
pub struct PoolModel {
    pub url: Seq<char>,
    pub max: int,
    pub idle: Seq<u64>,
    pub borrowed: Seq<u64>,
    pub next_id: u64,
}

/// How many connections are live: idle ones plus borrowed ones.
pub open spec fn live(m: PoolModel) -> int {
    m.idle.len() + m.borrowed.len() as int
}

/// Pool sanity: a positive maximum; no identifier twice, idle and borrowed
/// disjoint; identifiers all below the next fresh one; and the pool bound —
/// never more live connections than the configured maximum.
pub open spec fn pool_wf(m: PoolModel) -> bool {
    &&& m.max >= 1
    &&& m.idle.no_duplicates()
    &&& m.borrowed.no_duplicates()
    &&& forall|x: u64| !(m.idle.contains(x) && m.borrowed.contains(x))
    &&& forall|i: int| 0 <= i < m.idle.len() ==> #[trigger] m.idle[i] < m.next_id
    &&& forall|i: int| 0 <= i < m.borrowed.len() ==> #[trigger] m.borrowed[i] < m.next_id
    &&& live(m) <= m.max
}

/// The live, dialect-specific session token a pool hands to exactly one
/// borrower at a time. The driver owns the wire session for `id`; the token
/// returns to the pool it came from through `release`.
pub struct PooledConnection {
    url: String,
    id: u64,
}

impl PooledConnection {
    /// The identifier of the live connection this token stands for.
    pub closed spec fn spec_id(&self) -> u64 {
        self.id
    }

    /// The URL of the pool this token came from.
    pub closed spec fn spec_url(&self) -> Seq<char> {
        self.url@
    }

    /// The identifier of the live connection this token stands for.
    pub fn id(&self) -> (r: u64)
        ensures
            r == self.spec_id(),
    {
        self.id
    }

    /// The URL of the pool this token came from.
    pub fn url(&self) -> (r: &str)
        ensures
            r@ == self.spec_url(),
    {
        self.url.as_str()
    }
}

/// What an acquire attempt decides.
pub enum AcquireDecision {
    /// An idle live connection exists: borrow it.
    Reuse(PooledConnection),
    /// The pool is below its maximum: the caller must open a fresh
    /// connection for this token's identifier, or report `connect_failed`.
    Connect(PooledConnection),
    /// The pool is saturated: the request queues until a connection frees.
    Wait,
}

/// Mathematical model of an [`AcquireDecision`].
#[verifier::ext_equal]
pub enum AcquireDecisionModel {
    Reuse(u64),
    Connect(u64),
    Wait,
}

/// Model of one decision.
pub open spec fn acquire_decision_of(r: &AcquireDecision) -> AcquireDecisionModel {
    match r {
        AcquireDecision::Reuse(c) => AcquireDecisionModel::Reuse(c.spec_id()),
        AcquireDecision::Connect(c) => AcquireDecisionModel::Connect(c.spec_id()),
        AcquireDecision::Wait => AcquireDecisionModel::Wait,
    }
}

/// What an acquire attempt on pool state `m` decides: reuse the most
/// recently freed idle connection; else open a fresh one if the pool is
/// below its maximum (and an identifier is left); else wait.
pub open spec fn acquire_decision_model(m: PoolModel) -> AcquireDecisionModel {
    if m.idle.len() > 0 {
        AcquireDecisionModel::Reuse(m.idle.last())
    } else if live(m) < m.max && m.next_id < u64::MAX {
        AcquireDecisionModel::Connect(m.next_id)
    } else {
        AcquireDecisionModel::Wait
    }
}

/// The pool state after an acquire attempt.
pub open spec fn after_acquire(m: PoolModel) -> PoolModel {
    if m.idle.len() > 0 {
        PoolModel {
            url: m.url,
            max: m.max,
            idle: m.idle.drop_last(),
            borrowed: m.borrowed.push(m.idle.last()),
            next_id: m.next_id,
        }
    } else if live(m) < m.max && m.next_id < u64::MAX {
        PoolModel {
            url: m.url,
            max: m.max,
            idle: m.idle,
            borrowed: m.borrowed.push(m.next_id),
            next_id: (m.next_id + 1) as u64,
        }
    } else {
        m
    }
}

/// The position of `x` in `s`.
pub open spec fn seq_find(s: Seq<u64>, x: u64) -> int {
    choose|i: int| 0 <= i < s.len() && s[i] == x
}

/// The pool state after a borrowed connection returns: a sound connection
/// goes back to the idle set; a broken one is discarded, so the accounting
/// frees room for a future replacement.
pub open spec fn after_release(m: PoolModel, id: u64, broken: bool) -> PoolModel {
    PoolModel {
        url: m.url,
        max: m.max,
        idle: if broken {
            m.idle
        } else {
            m.idle.push(id)
        },
        borrowed: m.borrowed.remove(seq_find(m.borrowed, id)),
        next_id: m.next_id,
    }
}

/// Bounded accounting of the live connections to one URL.
pub struct ConnectionPool {
    url: String,
    max_size: usize,
    idle: Vec<u64>,
    borrowed: Vec<u64>,
    next_id: u64,
}

impl View for ConnectionPool {
    type V = PoolModel;

    closed spec fn view(&self) -> PoolModel {
        PoolModel {
            url: self.url@,
            max: self.max_size as int,
            idle: self.idle@,
            borrowed: self.borrowed@,
            next_id: self.next_id,
        }
    }
}

proof fn lemma_remove_keeps(s: Seq<u64>, i: int)
    requires
        s.no_duplicates(),
        0 <= i < s.len(),
    ensures
        s.remove(i).no_duplicates(),
        !s.remove(i).contains(s[i]),
        forall|x: u64| x != s[i] ==> s.remove(i).contains(x) == s.contains(x),
{
    let s2 = s.remove(i);
    assert forall|a: int, b: int| 0 <= a < b < s2.len() implies s2[a] != s2[b] by {
        let a0 = if a < i { a } else { a + 1 };
        let b0 = if b < i { b } else { b + 1 };
        assert(s2[a] == s[a0] && s2[b] == s[b0]);
    }
    assert forall|j: int| 0 <= j < s2.len() implies s2[j] != s[i] by {
        let j0 = if j < i { j } else { j + 1 };
        assert(s2[j] == s[j0]);
    }
    assert forall|x: u64| x != s[i] && s.contains(x) implies s2.contains(x) by {
        let j0 = choose|j: int| 0 <= j < s.len() && s[j] == x;
        let j = if j0 < i { j0 } else { j0 - 1 };
        assert(s2[j] == s[j0]);
    }
    assert forall|x: u64| x != s[i] && s2.contains(x) implies s.contains(x) by {
        let j = choose|j: int| 0 <= j < s2.len() && s2[j] == x;
        let j0 = if j < i { j } else { j + 1 };
        assert(s2[j] == s[j0]);
    }
}

impl ConnectionPool {
    /// Pool sanity, preserved by every operation.
    pub open spec fn wf(&self) -> bool {
        pool_wf(self@)
    }

    /// A fresh pool for `url`, with no live connection yet and the given
    /// maximum.
    pub fn new(url: &str, max_size: usize) -> (p: ConnectionPool)
        requires
            max_size >= 1,
        ensures
            p.wf(),
            p@ == (PoolModel {
                url: url@,
                max: max_size as int,
                idle: Seq::<u64>::empty(),
                borrowed: Seq::<u64>::empty(),
                next_id: 0u64,
            }),
    {
        let p = ConnectionPool {
            url: url.to_owned(),
            max_size,
            idle: Vec::new(),
            borrowed: Vec::new(),
            next_id: 0,
        };
        proof {
            assert(p@ =~= (PoolModel {
                url: url@,
                max: max_size as int,
                idle: Seq::<u64>::empty(),
                borrowed: Seq::<u64>::empty(),
                next_id: 0u64,
            }));
        }
        p
    }

    /// One acquire attempt: borrow an idle connection, order a fresh one to
    /// be opened, or wait — never a connection beyond the maximum.
    pub fn try_acquire(&mut self) -> (r: AcquireDecision)
        requires
            old(self).wf(),
        ensures
            final(self).wf(),
            acquire_decision_of(&r) == acquire_decision_model(old(self)@),
            final(self)@ == after_acquire(old(self)@),
            r matches AcquireDecision::Reuse(c) ==> c.spec_url() == old(self)@.url,
            r matches AcquireDecision::Connect(c) ==> c.spec_url() == old(self)@.url,
    {
        let ghost m = self@;
        match self.idle.pop() {
            Some(id) => {
                let conn = PooledConnection { url: clone_string(&self.url), id };
                proof {
                    assert(m.idle.last() == id);
                    assert(!m.borrowed.contains(id));
                    assert forall|a: int, b: int|
                        0 <= a < b < m.borrowed.push(id).len() implies m.borrowed.push(id)[a]
                        != m.borrowed.push(id)[b] by {
                        if b == m.borrowed.len() {
                            assert(m.borrowed.contains(m.borrowed[a]));
                        }
                    }
                    assert forall|x: u64| !(#[trigger] m.idle.drop_last().contains(x)
                        && m.borrowed.push(id).contains(x)) by {
                        if m.idle.drop_last().contains(x) {
                            let j = choose|j: int|
                                0 <= j < m.idle.drop_last().len() && m.idle.drop_last()[j] == x;
                            assert(m.idle[j] == x);
                            assert(m.idle.contains(x));
                            if x == id {
                                assert(m.idle[j] == m.idle[m.idle.len() - 1]);
                            }
                            if m.borrowed.push(id).contains(x) {
                                let b = choose|b: int|
                                    0 <= b < m.borrowed.push(id).len() && m.borrowed.push(id)[b]
                                        == x;
                                assert(b < m.borrowed.len());
                                assert(m.borrowed.contains(x));
                            }
                        }
                    }
                    assert forall|i: int| 0 <= i < m.idle.drop_last().len() implies #[trigger] m
                        .idle.drop_last()[i] < m.next_id by {
                        assert(m.idle.drop_last()[i] == m.idle[i]);
                    }
                }
                self.borrowed.push(id);
                proof {
                    assert(self@ =~= after_acquire(m));
                }
                AcquireDecision::Reuse(conn)
            },
            None => {
                if self.idle.len() + self.borrowed.len() < self.max_size && self.next_id
                    < u64::MAX {
                    let id = self.next_id;
                    proof {
                        assert(!m.borrowed.contains(id));
                        assert forall|a: int, b: int|
                            0 <= a < b < m.borrowed.push(id).len() implies m.borrowed.push(id)[a]
                            != m.borrowed.push(id)[b] by {
                            if b == m.borrowed.len() {
                                assert(m.borrowed.contains(m.borrowed[a]));
                            }
                        }
                        assert forall|x: u64| !(#[trigger] m.idle.contains(x) && m.borrowed.push(
                            id,
                        ).contains(x)) by {
                            if m.idle.contains(x) && m.borrowed.push(id).contains(x) {
                                let b = choose|b: int|
                                    0 <= b < m.borrowed.push(id).len() && m.borrowed.push(id)[b]
                                        == x;
                                if b < m.borrowed.len() {
                                    assert(m.borrowed.contains(x));
                                }
                            }
                        }
                    }
                    self.next_id = self.next_id + 1;
                    self.borrowed.push(id);
                    let conn = PooledConnection { url: clone_string(&self.url), id };
                    proof {
                        assert(self@ =~= after_acquire(m));
                    }
                    AcquireDecision::Connect(conn)
                } else {
                    proof {
                        assert(self@ =~= after_acquire(m));
                    }
                    AcquireDecision::Wait
                }
            },
        }
    }

    /// A borrowed connection comes back: a sound one returns to the idle
    /// set of the very pool it came from; a broken one is discarded and the
    /// accounting decrements, so a future acquire may open a replacement.
    /// The caller that was ordered to open a fresh connection and could not
    /// reports that the same way, with `broken` set.
    pub fn release(&mut self, conn: PooledConnection, broken: bool)
        requires
            old(self).wf(),
            conn.spec_url() == old(self)@.url,
            old(self)@.borrowed.contains(conn.spec_id()),
        ensures
            final(self).wf(),
            final(self)@ == after_release(old(self)@, conn.spec_id(), broken),
    {
        let ghost m = self@;
        let id = conn.id();
        let i = self.find_borrowed(id);
        proof {
            assert(m.borrowed[i as int] == id);
            let j = seq_find(m.borrowed, id);
            assert(0 <= j < m.borrowed.len() && m.borrowed[j] == id);
            assert(j == i as int);
            lemma_remove_keeps(m.borrowed, i as int);
        }
        self.borrowed.remove(i);
        if !broken {
            proof {
                assert(!m.idle.contains(id));
                assert forall|a: int, b: int| 0 <= a < b < m.idle.push(id).len() implies m.idle
                    .push(id)[a] != m.idle.push(id)[b] by {
                    if b == m.idle.len() {
                        assert(m.idle.contains(m.idle[a]));
                    }
                }
                assert forall|x: u64| !(#[trigger] m.idle.push(id).contains(x) && self@
                    .borrowed.contains(x)) by {
                    if m.idle.push(id).contains(x) {
                        let a = choose|a: int|
                            0 <= a < m.idle.push(id).len() && m.idle.push(id)[a] == x;
                        if a < m.idle.len() {
                            assert(m.idle.contains(x));
                        }
                    }
                }
            }
            self.idle.push(id);
        }
        proof {
            assert(self@ =~= after_release(m, id, broken));
        }
    }

    fn find_borrowed(&self, id: u64) -> (r: usize)
        requires
            self@.borrowed.contains(id),
        ensures
            r < self@.borrowed.len(),
            self@.borrowed[r as int] == id,
    {
        let mut i: usize = 0;
        let n = self.borrowed.len();
        while i < n
            invariant
                i <= n,
                n == self.borrowed@.len(),
                self@.borrowed.contains(id),
                forall|j: int| 0 <= j < i ==> self.borrowed@[j] != id,
            decreases n - i,
        {
            if self.borrowed[i] == id {
                return i;
            }
            i = i + 1;
        }
        proof {
            let j = choose|j: int| 0 <= j < self.borrowed@.len() && self.borrowed@[j] == id;
            assert(false);
        }
        0
    }

    /// Whether `id` is currently borrowed from this pool.
    pub fn is_borrowed(&self, id: u64) -> (r: bool)
        ensures
            r == self@.borrowed.contains(id),
    {
        let mut i: usize = 0;
        let n = self.borrowed.len();
        while i < n
            invariant
                i <= n,
                n == self.borrowed@.len(),
                forall|j: int| 0 <= j < i ==> self.borrowed@[j] != id,
            decreases n - i,
        {
            if self.borrowed[i] == id {
                return true;
            }
            i = i + 1;
        }
        false
    }

    /// How many connections are live right now.
    pub fn live_count(&self) -> (r: usize)
        requires
            self.wf(),
        ensures
            r == live(self@),
    {
        self.idle.len() + self.borrowed.len()
    }

    /// The configured maximum.
    pub fn max_size(&self) -> (r: usize)
        ensures
            r == self@.max,
    {
        self.max_size
    }
}

/// An owned copy of a string, character for character.
fn clone_string(s: &String) -> (r: String)
    ensures
        r@ == s@,
{
    s.clone()
}

/// Some position of `s` holds a pool for `url`.
pub open spec fn pools_has_url(s: Seq<ConnectionPool>, url: Seq<char>) -> bool {
    exists|i: int| 0 <= i < s.len() && (#[trigger] s[i])@.url == url
}

/// The position of `s` that holds the pool for `url`.
pub open spec fn pools_url_index(s: Seq<ConnectionPool>, url: Seq<char>) -> int {
    choose|i: int| 0 <= i < s.len() && (#[trigger] s[i])@.url == url
}

/// No two pools for one URL.
pub open spec fn pool_urls_unique(s: Seq<ConnectionPool>) -> bool {
    forall|i: int, j: int| 0 <= i < j < s.len() ==> (#[trigger] s[i])@.url != (#[trigger] s[j])@.url
}

/// The URL-to-pool map that a sequence of pools denotes.
pub open spec fn pools_model(s: Seq<ConnectionPool>) -> Map<Seq<char>, PoolModel> {
    Map::new(|u: Seq<char>| pools_has_url(s, u), |u| s[pools_url_index(s, u)]@)
}

proof fn lemma_pools_lookup(s: Seq<ConnectionPool>, i: int)
    requires
        pool_urls_unique(s),
        0 <= i < s.len(),
    ensures
        pools_model(s).contains_key(s[i]@.url),
        pools_model(s)[s[i]@.url] == s[i]@,
{
    let u = s[i]@.url;
    assert(pools_has_url(s, u));
    let j = pools_url_index(s, u);
    assert(0 <= j < s.len() && s[j]@.url == u);
    assert(j == i);
}

proof fn lemma_pools_push(s: Seq<ConnectionPool>, p: ConnectionPool)
    requires
        pool_urls_unique(s),
        !pools_has_url(s, p@.url),
    ensures
        pool_urls_unique(s.push(p)),
        pools_model(s.push(p)) == pools_model(s).insert(p@.url, p@),
{
    let s2 = s.push(p);
    assert forall|i: int, j: int| 0 <= i < j < s2.len() implies (#[trigger] s2[i])@.url
        != (#[trigger] s2[j])@.url by {
        if j == s.len() {
            assert(s2[i] == s[i]);
        } else {
            assert(s2[i] == s[i] && s2[j] == s[j]);
        }
    }
    let m2 = pools_model(s2);
    let target = pools_model(s).insert(p@.url, p@);
    assert forall|u: Seq<char>| #[trigger] m2.contains_key(u) implies target.contains_key(u)
        && m2[u] == target[u] by {
        let i = pools_url_index(s2, u);
        assert(0 <= i < s2.len() && s2[i]@.url == u);
        lemma_pools_lookup(s2, i);
        if i == s.len() {
            assert(u == p@.url);
        } else {
            assert(s2[i] == s[i]);
            lemma_pools_lookup(s, i);
            assert(u != p@.url);
        }
    }
    assert forall|u: Seq<char>| #[trigger] target.contains_key(u) implies m2.contains_key(u) by {
        if u == p@.url {
            assert(s2[s.len() as int]@.url == u);
        } else {
            let i = pools_url_index(s, u);
            assert(0 <= i < s.len() && s[i]@.url == u);
            assert(s2[i]@.url == u);
        }
    }
    assert(m2 =~= target);
}

proof fn lemma_pools_remove(s: Seq<ConnectionPool>, i: int)
    requires
        pool_urls_unique(s),
        0 <= i < s.len(),
    ensures
        pool_urls_unique(s.remove(i)),
        pools_model(s.remove(i)) == pools_model(s).remove(s[i]@.url),
{
    let s2 = s.remove(i);
    assert forall|a: int, b: int| 0 <= a < b < s2.len() implies (#[trigger] s2[a])@.url
        != (#[trigger] s2[b])@.url by {
        let a0 = if a < i { a } else { a + 1 };
        let b0 = if b < i { b } else { b + 1 };
        assert(s2[a] == s[a0] && s2[b] == s[b0]);
    }
    let m2 = pools_model(s2);
    let target = pools_model(s).remove(s[i]@.url);
    assert forall|u: Seq<char>| #[trigger] m2.contains_key(u) implies target.contains_key(u)
        && m2[u] == target[u] by {
        let j = pools_url_index(s2, u);
        assert(0 <= j < s2.len() && s2[j]@.url == u);
        lemma_pools_lookup(s2, j);
        let j0 = if j < i { j } else { j + 1 };
        assert(s2[j] == s[j0]);
        lemma_pools_lookup(s, j0);
        assert(u != s[i]@.url);
    }
    assert forall|u: Seq<char>| #[trigger] target.contains_key(u) implies m2.contains_key(u) by {
        let j0 = pools_url_index(s, u);
        assert(0 <= j0 < s.len() && s[j0]@.url == u);
        assert(j0 != i);
        let j = if j0 < i { j0 } else { j0 - 1 };
        assert(s2[j] == s[j0]);
        assert(pools_has_url(s2, u));
    }
    assert(m2 =~= target);
}

/// The pools a description cache owns: one lazily created connection pool
/// per distinct target URL seen, each bounded by the configured default
/// maximum. A pool is checked out, driven, and checked back in, so that
/// independent URLs proceed independently.
pub struct PoolSet {
    pools: Vec<ConnectionPool>,
    default_max: usize,
}

impl View for PoolSet {
    type V = Map<Seq<char>, PoolModel>;

    closed spec fn view(&self) -> Map<Seq<char>, PoolModel> {
        pools_model(self.pools@)
    }
}

impl PoolSet {
    /// The maximum every lazily created pool is configured with.
    pub closed spec fn spec_default_max(&self) -> int {
        self.default_max as int
    }

    /// At most one pool per URL, every pool well-formed.
    pub closed spec fn wf(&self) -> bool {
        &&& pool_urls_unique(self.pools@)
        &&& forall|i: int| 0 <= i < self.pools@.len() ==> pool_wf((#[trigger] self.pools@[i])@)
        &&& self.default_max >= 1
    }

    /// No URL seen yet.
    pub fn new(default_max: usize) -> (s: PoolSet)
        requires
            default_max >= 1,
        ensures
            s.wf(),
            s@ == Map::<Seq<char>, PoolModel>::empty(),
            s.spec_default_max() == default_max,
    {
        let s = PoolSet { pools: Vec::new(), default_max };
        proof {
            assert(s@ =~= Map::<Seq<char>, PoolModel>::empty());
        }
        s
    }

    /// Check out the pool for `url`, creating it — empty, with the default
    /// maximum — the first time the URL is seen. Until it is checked back
    /// in, the set holds no pool for this URL.
    pub fn take_pool(&mut self, url: &str) -> (p: ConnectionPool)
        requires
            old(self).wf(),
        ensures
            final(self).wf(),
            p.wf(),
            p@.url == url@,
            final(self).spec_default_max() == old(self).spec_default_max(),
            old(self)@.contains_key(url@) ==> p@ == old(self)@[url@] && final(self)@ == old(
                self,
            )@.remove(url@),
            !old(self)@.contains_key(url@) ==> p@ == (PoolModel {
                url: url@,
                max: old(self).spec_default_max(),
                idle: Seq::<u64>::empty(),
                borrowed: Seq::<u64>::empty(),
                next_id: 0u64,
            }) && final(self)@ == old(self)@,
            !final(self)@.contains_key(url@),
    {
        let owned: String = url.to_owned();
        let mut i: usize = 0;
        while i < self.pools.len()
            invariant
                i <= self.pools@.len(),
                *self == *old(self),
                self.wf(),
                owned@ == url@,
                forall|j: int| 0 <= j < i ==> (#[trigger] self.pools@[j])@.url != url@,
            decreases self.pools@.len() - i,
        {
            if string_eq(&self.pools[i].url, &owned) {
                proof {
                    lemma_pools_lookup(self.pools@, i as int);
                    lemma_pools_remove(self.pools@, i as int);
                }
                let p = self.pools.remove(i);
                return p;
            }
            i = i + 1;
        }
        proof {
            if pools_has_url(self.pools@, url@) {
                let j = pools_url_index(self.pools@, url@);
                assert(false);
            }
        }
        ConnectionPool::new(url, self.default_max)
    }

    /// Check a pool back in under its URL.
    pub fn put_pool(&mut self, p: ConnectionPool)
        requires
            old(self).wf(),
            p.wf(),
            !old(self)@.contains_key(p@.url),
        ensures
            final(self).wf(),
            final(self)@ == old(self)@.insert(p@.url, p@),
            final(self).spec_default_max() == old(self).spec_default_max(),
    {
        proof {
            if pools_has_url(self.pools@, p@.url) {
                let j = pools_url_index(self.pools@, p@.url);
                lemma_pools_lookup(self.pools@, j);
            }
            lemma_pools_push(self.pools@, p);
        }
        self.pools.push(p);
    }
}

/// The pool bound: in every well-formed pool state — and every operation
/// above keeps the state well-formed — the number of live connections never
/// exceeds the configured maximum.
pub proof fn lemma_pool_bound(m: PoolModel)
    requires
        pool_wf(m),
    ensures
        live(m) <= m.max,
{
}

proof fn lemma_after_acquire_wf(m: PoolModel)
    requires
        pool_wf(m),
    ensures
        pool_wf(after_acquire(m)),
        after_acquire(m).max == m.max,
        after_acquire(m).url == m.url,
        live(after_acquire(m)) <= live(m) + 1,
{
    let m2 = after_acquire(m);
    if m.idle.len() > 0 {
        let id = m.idle.last();
        assert(m.idle.contains(id));
        assert(!m.borrowed.contains(id));
        assert forall|a: int, b: int| 0 <= a < b < m2.borrowed.len() implies m2.borrowed[a]
            != m2.borrowed[b] by {
            if b == m.borrowed.len() {
                assert(m.borrowed.contains(m.borrowed[a]));
            }
        }
        assert forall|x: u64| !(#[trigger] m2.idle.contains(x) && m2.borrowed.contains(x)) by {
            if m2.idle.contains(x) {
                let j = choose|j: int| 0 <= j < m2.idle.len() && m2.idle[j] == x;
                assert(m.idle[j] == x);
                assert(m.idle.contains(x));
                if x == id {
                    assert(m.idle[j] == m.idle[m.idle.len() - 1]);
                }
                if m2.borrowed.contains(x) {
                    let b = choose|b: int| 0 <= b < m2.borrowed.len() && m2.borrowed[b] == x;
                    assert(b < m.borrowed.len());
                    assert(m.borrowed.contains(x));
                }
            }
        }
        assert forall|i: int| 0 <= i < m2.idle.len() implies #[trigger] m2.idle[i]
            < m2.next_id by {
            assert(m2.idle[i] == m.idle[i]);
        }
    } else if live(m) < m.max && m.next_id < u64::MAX {
        let id = m.next_id;
        assert(!m.borrowed.contains(id));
        assert forall|a: int, b: int| 0 <= a < b < m2.borrowed.len() implies m2.borrowed[a]
            != m2.borrowed[b] by {
            if b == m.borrowed.len() {
                assert(m.borrowed.contains(m.borrowed[a]));
            }
        }
        assert forall|x: u64| !(#[trigger] m2.idle.contains(x) && m2.borrowed.contains(x)) by {
            if m2.idle.contains(x) && m2.borrowed.contains(x) {
                let b = choose|b: int| 0 <= b < m2.borrowed.len() && m2.borrowed[b] == x;
                if b < m.borrowed.len() {
                    assert(m.borrowed.contains(x));
                }
            }
        }
    }
}

proof fn lemma_after_release_wf(m: PoolModel, id: u64, broken: bool)
    requires
        pool_wf(m),
        m.borrowed.contains(id),
    ensures
        pool_wf(after_release(m, id, broken)),
        after_release(m, id, broken).max == m.max,
        after_release(m, id, broken).url == m.url,
        live(after_release(m, id, broken)) <= live(m),
{
    let m2 = after_release(m, id, broken);
    let j = seq_find(m.borrowed, id);
    assert(0 <= j < m.borrowed.len() && m.borrowed[j] == id);
    lemma_remove_keeps(m.borrowed, j);
    assert(!m.idle.contains(id));
    if !broken {
        assert forall|a: int, b: int| 0 <= a < b < m2.idle.len() implies m2.idle[a]
            != m2.idle[b] by {
            if b == m.idle.len() {
                assert(m.idle.contains(m.idle[a]));
            }
        }
        assert forall|x: u64| !(#[trigger] m2.idle.contains(x) && m2.borrowed.contains(x)) by {
            if m2.idle.contains(x) {
                let a = choose|a: int| 0 <= a < m2.idle.len() && m2.idle[a] == x;
                if a < m.idle.len() {
                    assert(m.idle.contains(x));
                }
            }
        }
        assert forall|i: int| 0 <= i < m2.idle.len() implies #[trigger] m2.idle[i]
            < m2.next_id by {
            if i < m.idle.len() {
                assert(m2.idle[i] == m.idle[i]);
            } else {
                assert(m2.idle[i] == id);
                assert(m.borrowed[j] < m.next_id);
            }
        }
    }
    assert forall|i: int| 0 <= i < m2.borrowed.len() implies #[trigger] m2.borrowed[i]
        < m2.next_id by {
        let i0 = if i < j { i } else { i + 1 };
        assert(m2.borrowed[i] == m.borrowed[i0]);
    }
}

/// One pool transition, at the model level: an acquire attempt, or the
/// return of a borrowed connection (sound or broken). A release applies
/// only to an identifier that is actually borrowed, exactly as the exec
/// transition requires.
pub enum PoolEvent {
    Acquire,
    Release(u64, bool),
}

/// The pool state after one event.
pub open spec fn pool_step(m: PoolModel, e: PoolEvent) -> PoolModel {
    match e {
        PoolEvent::Acquire => after_acquire(m),
        PoolEvent::Release(id, broken) => if m.borrowed.contains(id) {
            after_release(m, id, broken)
        } else {
            m
        },
    }
}

/// The pool state after a schedule of events.
pub open spec fn pool_run(m: PoolModel, es: Seq<PoolEvent>) -> PoolModel
    decreases es.len(),
{
    if es.len() == 0 {
        m
    } else {
        pool_run(pool_step(m, es[0]), es.subrange(1, es.len() as int))
    }
}

/// The pool bound holds at every instant: under any schedule of acquire
/// attempts and releases, a well-formed pool stays well-formed, keeps its
/// configured maximum, and never holds more live connections than that
/// maximum.
pub proof fn lemma_pool_bound_always(m: PoolModel, es: Seq<PoolEvent>)
    requires
        pool_wf(m),
    ensures
        pool_wf(pool_run(m, es)),
        pool_run(m, es).max == m.max,
        pool_run(m, es).url == m.url,
        live(pool_run(m, es)) <= m.max,
    decreases es.len(),
{
    if es.len() > 0 {
        let m2 = pool_step(m, es[0]);
        match es[0] {
            PoolEvent::Acquire => lemma_after_acquire_wf(m),
            PoolEvent::Release(id, broken) => {
                if m.borrowed.contains(id) {
                    lemma_after_release_wf(m, id, broken);
                }
            },
        }
        lemma_pool_bound_always(m2, es.subrange(1, es.len() as int));
    }
}

/// A saturated pool makes callers wait: with every slot live and none idle,
/// an acquire attempt decides nothing but `Wait`, and the state does not
/// change.
pub proof fn lemma_saturated_pool_waits(m: PoolModel)
    requires
        pool_wf(m),
        m.idle.len() == 0,
        live(m) == m.max,
    ensures
        acquire_decision_model(m) is Wait,
        after_acquire(m) == m,
{
}

/// A freed connection is reusable at once: after a sound release of `id`,
/// the next acquire attempt reuses exactly `id`, so waiting requests
/// complete as connections free.
pub proof fn lemma_freed_connection_reusable(m: PoolModel, id: u64)
    requires
        pool_wf(m),
        m.borrowed.contains(id),
    ensures
        acquire_decision_model(after_release(m, id, false)) == AcquireDecisionModel::Reuse(id),
{
}

} // verus!
